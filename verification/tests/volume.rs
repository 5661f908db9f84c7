use boardswarm::batch_writer::{
    BatchFlush, BatchSeek, BatchWrite, BatchWriter, WriteOutcome,
};
use boardswarm::status::{Code, Status};
use boardswarm::volume_io::{
    lost_request, match_reply, opened_target, IoAction, IoCall, IoError, IoEvent, Outstanding,
    Permit, SeekFrom, ServerMessage, VolumeIoNoMoreRequests, VolumeIoRW, VolumeIoReply,
    VolumeIoRequest, VolumeTarget,
};
use boardswarm::volumes::{
    brom_targets, dfu_download, dfu_interfaces, dfu_reset, dfu_targets, eswin_targets, find_mount,
    find_target, AltSetting, BufferedTarget, DfuInterface, RockUsbError, RockUsbMode,
    RockUsbOpen, VolumeError, BOOTLOADER_FILE,
};

fn target(readable: bool, writable: bool, seekable: bool) -> VolumeTarget {
    VolumeTarget {
        name: "t".to_string(),
        readable,
        writable,
        seekable,
        size: Some(1000),
        blocksize: Some(512),
    }
}

fn failed(message: &str) -> Status {
    Status::new(Code::Aborted, message)
}

#[test]
fn replies_are_matched_with_requests() {
    let a = match_reply(Outstanding::Write, ServerMessage::Message(Some(VolumeIoReply::Write(3))));
    assert!(matches!(a.reply, Ok(VolumeIoReply::Write(3))) && a.go_on);
    let a = match_reply(Outstanding::Read, ServerMessage::Message(Some(VolumeIoReply::Write(3))));
    assert_eq!(a.reply.unwrap_err().message, "Unmatched client request and server reply");
    assert!(!a.go_on);
    let a = match_reply(Outstanding::Flush, ServerMessage::Message(None));
    assert_eq!(a.reply.unwrap_err().message, "Reply didn't have reply data");
    assert!(a.go_on);
    let a = match_reply(Outstanding::Flush, ServerMessage::End);
    assert!(a.reply.is_err() && !a.go_on);
    let a = match_reply(Outstanding::Shutdown, ServerMessage::Failed(failed("x")));
    assert_eq!(a.reply.unwrap_err().message, "x");
    assert!(a.go_on);
    assert_eq!(lost_request(Outstanding::Read).message, "Request not received");
    assert_eq!(
        lost_request(Outstanding::Shutdown).message,
        "Shutdown request not received: RecvError(())"
    );
    assert_eq!(VolumeIoNoMoreRequests.message(), "No more requests can be send");
}

#[test]
fn targets_are_opened() {
    let reply = VolumeIoReply::Target(Some(target(true, true, true)));
    assert_eq!(opened_target(ServerMessage::Message(Some(reply))).unwrap().name, "t");
    let empty = ServerMessage::Message(Some(VolumeIoReply::Target(None)));
    assert_eq!(opened_target(empty).unwrap_err().message, "Empty target reply");
    assert_eq!(
        opened_target(ServerMessage::End).unwrap_err().message,
        "Didn't get Target reply as expected"
    );
    assert_eq!(opened_target(ServerMessage::Failed(failed("x"))).unwrap_err().message, "x");
}

fn write(rw: &mut VolumeIoRW, data: &[u8]) -> VolumeIoRequest {
    let mut action = rw.step(IoCall::Write, data, IoEvent::Begin);
    while let IoAction::PollFront = action {
        action = rw.step(IoCall::Write, data, IoEvent::Front(None));
    }
    assert!(matches!(action, IoAction::PollPermit));
    match rw.step(IoCall::Write, data, IoEvent::Permit(Permit::Granted)) {
        IoAction::Send(request) => {
            assert!(matches!(rw.step(IoCall::Write, data, IoEvent::Sent), IoAction::Written(_)));
            request
        }
        _ => panic!("a request was expected"),
    }
}

#[test]
fn writes_follow_one_another() {
    let mut rw = VolumeIoRW::new(target(true, true, true));
    assert!(matches!(write(&mut rw, &[1, 2, 3]), VolumeIoRequest::Write(d, 0) if d == [1, 2, 3]));
    assert!(matches!(write(&mut rw, &[4]), VolumeIoRequest::Write(d, 3) if d == [4]));
    assert_eq!(rw.front(), Some(Outstanding::Write));
    let big = vec![0; VolumeIoRW::MAX_WRITE_SIZE + 1];
    assert!(matches!(write(&mut rw, &big), VolumeIoRequest::Write(d, 4)
        if d.len() == VolumeIoRW::MAX_WRITE_SIZE));
}

#[test]
fn a_flush_waits_for_all_replies() {
    let mut rw = VolumeIoRW::new(target(true, true, true));
    write(&mut rw, &[1]);
    let step = |rw: &mut VolumeIoRW, e| rw.step(IoCall::Flush, &[], e);
    assert!(matches!(step(&mut rw, IoEvent::Begin), IoAction::PollFront));
    assert!(matches!(step(&mut rw, IoEvent::Front(None)), IoAction::PollFront));
    assert!(matches!(step(&mut rw, IoEvent::Front(None)), IoAction::PollPermit));
    assert!(matches!(step(&mut rw, IoEvent::Permit(Permit::Granted)),
        IoAction::Send(VolumeIoRequest::Flush)));
    assert!(matches!(step(&mut rw, IoEvent::Sent), IoAction::PollFront));
    assert!(matches!(step(&mut rw, IoEvent::Front(Some(Ok(())))), IoAction::PollFront));
    assert!(matches!(step(&mut rw, IoEvent::Front(None)), IoAction::Wait));
    assert!(matches!(step(&mut rw, IoEvent::Begin), IoAction::PollFront));
    assert!(matches!(step(&mut rw, IoEvent::Front(Some(Ok(())))), IoAction::Done));
}

#[test]
fn failures_come_out_with_later_calls() {
    let mut rw = VolumeIoRW::new(target(true, true, true));
    write(&mut rw, &[1]);
    assert!(matches!(rw.step(IoCall::Write, &[2], IoEvent::Begin), IoAction::PollFront));
    let event = IoEvent::Front(Some(Err(failed("disk full"))));
    assert!(matches!(rw.step(IoCall::Write, &[2], event),
        IoAction::Fail(IoError::Remote(s)) if s.message == "disk full"));
    assert!(matches!(rw.step(IoCall::Write, &[2], IoEvent::Begin), IoAction::PollPermit));
    assert!(matches!(rw.step(IoCall::Write, &[2], IoEvent::Permit(Permit::Pending)), IoAction::Wait));
    assert!(matches!(rw.step(IoCall::Write, &[2], IoEvent::Permit(Permit::Closed)),
        IoAction::Fail(IoError::NotConnected)));
}

#[test]
fn reads_are_buffered() {
    let mut rw = VolumeIoRW::new(target(true, true, true));
    let call = IoCall::Read(2);
    assert!(matches!(rw.step(call, &[], IoEvent::Begin), IoAction::PollPermit));
    assert!(matches!(rw.step(call, &[], IoEvent::Permit(Permit::Granted)),
        IoAction::Send(VolumeIoRequest::Read(2, 0))));
    assert!(matches!(rw.step(call, &[], IoEvent::Sent), IoAction::PollData));
    assert!(matches!(rw.step(call, &[], IoEvent::Data(None)), IoAction::Wait));
    let event = IoEvent::Data(Some(Ok(vec![1, 2, 3])));
    assert!(matches!(rw.step(call, &[], event), IoAction::Data(d) if d == [1, 2]));
    assert!(matches!(rw.step(call, &[], IoEvent::Begin), IoAction::Data(d) if d == [3]));
    assert_eq!(rw.start_seek(SeekFrom::Current(0)).is_ok(), true);
    assert_eq!(rw.poll_complete().unwrap(), 3);
}

#[test]
fn positions_stay_in_range() {
    let mut rw = VolumeIoRW::new(target(true, true, true));
    for (seek, expected) in [
        (SeekFrom::Start(10), 10),
        (SeekFrom::Current(-20), 0),
        (SeekFrom::End(-1), 999),
        (SeekFrom::Start(u64::MAX), u64::MAX),
        (SeekFrom::Current(1), u64::MAX),
        (SeekFrom::Current(i64::MIN), u64::MAX - (1 << 63)),
    ] {
        rw.start_seek(seek).unwrap();
        assert_eq!(rw.poll_complete().unwrap(), expected);
    }
    assert_eq!(rw.poll_complete().unwrap(), u64::MAX - (1 << 63));
}

#[test]
fn targets_refuse_what_they_cannot_do() {
    let mut rw = VolumeIoRW::new(target(false, false, false));
    assert!(!rw.readable() && !rw.writable() && !rw.seekable());
    assert_eq!((rw.size(), rw.blocksize()), (Some(1000), Some(512)));
    assert!(matches!(rw.step(IoCall::Write, &[1], IoEvent::Begin),
        IoAction::Fail(IoError::Unsupported(t)) if t == "Target doesn't support writing"));
    assert!(matches!(rw.step(IoCall::Read(1), &[], IoEvent::Begin),
        IoAction::Fail(IoError::Unsupported(t)) if t == "Target doesn't support reading"));
    assert!(matches!(rw.start_seek(SeekFrom::Start(1)),
        Err(IoError::Unsupported(t)) if t == "Target doesn't support seek"));
    assert!(rw.poll_complete().is_err());
    let mut unsized_target = target(true, true, true);
    unsized_target.size = None;
    let mut rw = VolumeIoRW::new(unsized_target);
    rw.start_seek(SeekFrom::End(0)).unwrap();
    assert!(matches!(rw.poll_complete(),
        Err(IoError::Unsupported(t)) if t == "Target has no known size"));
    let mut rw = VolumeIoRW::new(target(true, true, true));
    rw.step(IoCall::Shutdown, &[], IoEvent::Begin);
    rw.step(IoCall::Shutdown, &[], IoEvent::Permit(Permit::Granted));
    assert!(matches!(rw.step(IoCall::Flush, &[], IoEvent::Front(None)),
        IoAction::Fail(IoError::InvalidInput(t)) if t == "Flush after shutdown"));
}

#[test]
fn batches_are_written_whole() {
    let rw = VolumeIoRW::new(target(true, true, true));
    let mut batch = BatchWriter::new(&rw);
    let size = VolumeIoRW::MAX_WRITE_SIZE;
    assert!(batch.poll_flush_data().is_none());
    assert!(matches!(batch.poll_write(&vec![1; size]), BatchWrite::PassOn));
    assert!(matches!(batch.poll_write(&[1, 2, 3]), BatchWrite::Kept(3)));
    assert_eq!(batch.poll_flush_data(), Some(vec![1, 2, 3]));
    assert!(matches!(batch.start_seek(SeekFrom::Start(5)), BatchSeek::Kept));
    assert!(matches!(batch.start_seek(SeekFrom::Start(6)),
        BatchSeek::Failed(IoError::Busy(t)) if t == "Seek in progress"));
    assert!(matches!(batch.take_seek(), Some(SeekFrom::Start(5))));
    let full = match batch.poll_write(&vec![4; size]) {
        BatchWrite::Write(data) => data,
        _ => panic!("a full batch was expected"),
    };
    assert_eq!(full.len(), size);
    assert_eq!(full[0..4], [1, 2, 3, 4]);
    let outcome = batch.batch_written(full, WriteOutcome::Written(size));
    assert!(matches!(outcome, WriteOutcome::Written(n) if n == size - 3));
    assert!(batch.poll_flush_data().is_none());
    assert!(matches!(batch.start_seek(SeekFrom::Start(5)), BatchSeek::PassOn(SeekFrom::Start(5))));
    assert!(matches!(batch.poll_flush(), BatchFlush::FlushVolume));
    assert!(matches!(batch.discard_flush().poll_flush(), BatchFlush::Done));
}

#[test]
fn short_writes_keep_the_rest() {
    let mut odd = target(true, true, true);
    odd.blocksize = Some(1000);
    let rw = VolumeIoRW::new(odd);
    let mut batch = BatchWriter::new(&rw);
    let size = VolumeIoRW::MAX_WRITE_SIZE - VolumeIoRW::MAX_WRITE_SIZE % 1000;
    batch.poll_write(&[9]);
    let full = match batch.poll_write(&vec![8; size]) {
        BatchWrite::Write(data) => data,
        _ => panic!("a full batch was expected"),
    };
    assert_eq!(full.len(), size);
    batch.batch_written(full, WriteOutcome::Written(size - 2));
    assert_eq!(batch.poll_flush_data(), Some(vec![8, 8]));
    batch.flush_data_written(1);
    assert_eq!(batch.poll_flush_data(), Some(vec![8]));
    batch.flush_data_written(1);
    assert!(batch.poll_flush_data().is_none());
}

#[test]
fn volumes_have_targets() {
    let targets = dfu_targets(&vec!["rootfs".to_string(), "boot".to_string()]);
    assert_eq!(find_target(&targets, "boot").unwrap(), 1);
    assert!(targets[0].writable && !targets[0].readable && !targets[0].seekable);
    let unknown = find_target(&targets, "x").unwrap_err();
    assert!(matches!(unknown, VolumeError::UnknownTargetRequested));
    assert_eq!(brom_targets()[0].name, "brom");
    assert_eq!(eswin_targets()[0].writable, true);
    assert_eq!(BOOTLOADER_FILE, "bootloader_ddr5_secboot.bin");
    assert_eq!(VolumeError::NotImplemented.into_status().code, Code::Unimplemented);
    assert_eq!(VolumeError::Internal("x".to_string()).into_status().code, Code::Internal);
}

#[test]
fn buffered_targets_collect_writes() {
    let mut t = BufferedTarget::maskrom();
    assert_eq!(t.write(&vec![1, 2], 0).unwrap(), 2);
    assert_eq!(t.write(&vec![3], 2).unwrap(), 1);
    assert_eq!(t.finish(), [1, 2, 3]);
    let mut t = BufferedTarget::brom(Some(4));
    assert_eq!(t.write(&vec![1, 2], 0).unwrap(), 2);
    assert_eq!(t.split(), [1, 2]);
}

#[test]
fn rock_boards_have_modes() {
    let targets = RockUsbMode::MaskRom.targets();
    let names: Vec<_> = targets.iter().map(|t| t.name.as_str()).collect();
    assert_eq!(names, ["471", "472"]);
    assert!(matches!(RockUsbMode::MaskRom.open("471"), Ok(RockUsbOpen::Maskrom(0x471))));
    assert!(RockUsbMode::MaskRom.open("flash").is_err());
    let loader = RockUsbMode::Loader("emmc".to_string(), 512);
    assert_eq!(loader.targets().len(), 1);
    assert!(matches!(loader.open(&loader.targets()[0].name), Ok(RockUsbOpen::Flash)));
    let gone = RockUsbError::RockDeviceUnavailable("x".to_string());
    assert!(!gone.message().is_empty());
}

fn alt(interface: u8, alt: u8, protocol: u8) -> AltSetting {
    AltSetting { interface, alt, class: 0xfe, subclass: 1, protocol }
}

#[test]
fn boards_in_upgrade_mode_are_written() {
    let named = |n: &str| Some(n.to_string());
    let settings = vec![
        (alt(0, 0, 2), named("boot")),
        (alt(0, 1, 1), named("app")),
        (alt(0, 2, 2), None),
        (alt(0, 3, 2), named("root")),
        (alt(1, 0, 2), named("boot")),
    ];
    let entries = dfu_interfaces(&settings);
    assert_eq!(entries.len(), 2);
    assert_eq!(
        dfu_download(&entries, "boot", Some(0x1_0000_0005)),
        Some((DfuInterface { interface: 1, alt: 0 }, 5))
    );
    assert_eq!(
        dfu_download(&entries, "root", None),
        Some((DfuInterface { interface: 0, alt: 3 }, 0))
    );
    assert_eq!(dfu_download(&entries, "app", None), None);
    assert!(dfu_reset(&entries).is_some());
    assert_eq!(dfu_reset(&vec![]), None);
}

#[test]
fn mounts_are_found() {
    let mounts = vec![
        ("/dev/sda1".to_string(), "/".to_string()),
        ("/dev/sdb".to_string(), "/mnt/x".to_string()),
    ];
    assert_eq!(find_mount(&mounts, "/dev/sdb", "/mnt/x"), Some(1));
    assert_eq!(find_mount(&mounts, "/dev/sdb", "/"), None);
}

#[test]
fn boards_that_fail_fail_their_volumes() {
    let failed = RockUsbError::RockUsb("x".to_string()).into_volume_error();
    assert_eq!(failed.message(), "Volume failure: Rockusb usb error: x");
    let lost = RockUsbError::CommandsSend.into_volume_error();
    assert_eq!(lost.message(), "Internal error: Failed to send command to rockusb thread");
}
