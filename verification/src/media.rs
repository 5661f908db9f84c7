//! Cameras: which devices are cameras, which element of the media library encodes their
//! pictures, and who is watching.

use vstd::prelude::*;

use crate::path::file_name_of;
use crate::providers::offered_properties;
use crate::registry::{Properties, PROVIDER, PROVIDER_NAME};
use crate::serial::port_name;
use crate::text::{
    append_decimal, contains, decimal, law_patterns_stand_by_characters, occurs, occurs_at,
};
use crate::udev::{first_value, item_properties, law_first_value_counts, Device};

verus! {

/// Whether a device gives pictures.
pub open spec fn gives_pictures(device: Device) -> bool {
    match first_value(device.properties@, "ID_V4L_CAPABILITIES"@) {
        Some(capabilities) => occurs(capabilities, ":capture:"@),
        None => false,
    }
}

/// Whether a device gives pictures.
pub fn is_camera(device: &Device) -> (r: bool)
    ensures
        r == gives_pictures(*device),
{
    match device.property("ID_V4L_CAPABILITIES") {
        Some(capabilities) => contains(capabilities, ":capture:"),
        None => false,
    }
}

/// Where to ask for one's own address.
pub const STUN_SERVER: &'static str = "stun://stun.l.google.com:19302";

/// The camera on a device, with its properties. The device comes first, its parents behind it.
pub fn camera(chain: &Vec<Device>, node: Option<&str>, provider_name: &str) -> (r: Option<
    (V4l2Device, Properties),
>)
    requires
        chain@.len() > 0,
    ensures
        match r {
            Some((device, properties)) => {
                &&& port_name(node) is Some
                &&& gives_pictures(chain@[0])
                &&& device.path() == node->0@
                &&& device.wf()
                &&& device.watching() == Seq::<u64>::empty()
                &&& properties.wf()
                &&& properties@ == offered_properties(
                    port_name(node)->0,
                    chain@,
                    provider_name@,
                    "v4l2"@,
                )
            },
            None => port_name(node) is None || !gives_pictures(chain@[0]),
        },
{
    match node {
        None => None,
        Some(node) => match file_name_of(node) {
            None => None,
            Some(name) => {
                if !is_camera(&chain[0]) {
                    return None;
                }
                let mut properties = item_properties(name.as_str(), chain);
                properties.insert(PROVIDER_NAME, provider_name);
                properties.insert(PROVIDER, "v4l2");
                Some((V4l2Device::new(node.to_owned()), properties))
            },
        },
    }
}

/// An element of a pipeline, with what it is set to.
#[derive(Debug)]
pub struct Element {
    /// What it is made by.
    pub factory: String,
    /// What it is set to, by name.
    pub properties: Vec<(&'static str, String)>,
}

/// Whether the element is made by the factory and set to these values.
pub open spec fn is_element(
    element: Element,
    factory: Seq<char>,
    properties: Seq<(Seq<char>, Seq<char>)>,
) -> bool {
    &&& element.factory@ == factory
    &&& element.properties@.len() == properties.len()
    &&& forall|i: int|
        0 <= i < properties.len() ==> (#[trigger] element.properties@[i]).0@ == properties[i].0
            && element.properties@[i].1@ == properties[i].1
}

/// Whether the elements are made by these factories and set to these values.
pub open spec fn are_elements(
    elements: Seq<Element>,
    parts: Seq<(Seq<char>, Seq<(Seq<char>, Seq<char>)>)>,
) -> bool {
    &&& elements.len() == parts.len()
    &&& forall|i: int|
        0 <= i < parts.len() ==> is_element(#[trigger] elements[i], parts[i].0, parts[i].1)
}

/// An element that is set to nothing.
pub(crate) fn new_element(factory: &str) -> (r: Element)
    ensures
        r.factory@ == factory@,
        r.properties@ == Seq::<(&'static str, String)>::empty(),
{
    Element { factory: factory.to_owned(), properties: Vec::new() }
}

/// The elements that bring the pictures of a camera to those who watch, each feeding the next. A
/// camera that can give JPEG pictures is made to, and `jpeg_decoder` takes them apart.
pub open spec fn source_chain(device_path: Seq<char>, jpeg_decoder: Option<Seq<char>>) -> Seq<
    (Seq<char>, Seq<(Seq<char>, Seq<char>)>),
> {
    let source = ("v4l2src"@, seq![("device"@, device_path)]);
    let convert = ("videoconvert"@, Seq::<(Seq<char>, Seq<char>)>::empty());
    let tee = ("tee"@, seq![("allow-not-linked"@, "true"@)]);
    match jpeg_decoder {
        Some(decoder) => seq![
            source,
            ("capsfilter"@, seq![("caps"@, "image/jpeg"@)]),
            ("jpegparse"@, Seq::<(Seq<char>, Seq<char>)>::empty()),
            (decoder, Seq::<(Seq<char>, Seq<char>)>::empty()),
            convert,
            tee,
        ],
        None => seq![source, convert, tee],
    }
}

/// The elements that bring the pictures of a camera to those who watch, each feeding the next.
pub fn source_elements(device_path: &str, jpeg_decoder: Option<&str>) -> (r: Vec<Element>)
    ensures
        are_elements(
            r@,
            source_chain(
                device_path@,
                match jpeg_decoder {
                    Some(decoder) => Some(decoder@),
                    None => None,
                },
            ),
        ),
{
    let mut r: Vec<Element> = Vec::new();
    let mut source = new_element("v4l2src");
    source.properties.push(("device", device_path.to_owned()));
    r.push(source);
    match jpeg_decoder {
        Some(decoder) => {
            let mut filter = new_element("capsfilter");
            filter.properties.push(("caps", "image/jpeg".to_owned()));
            r.push(filter);
            r.push(new_element("jpegparse"));
            r.push(new_element(decoder));
        },
        None => {},
    }
    r.push(new_element("videoconvert"));
    let mut tee = new_element("tee");
    tee.properties.push(("allow-not-linked", "true".to_owned()));
    r.push(tee);
    r
}

/// What an encoder can be set to.
#[derive(Copy, Clone, Debug, PartialEq, Eq, Structural)]
pub struct EncoderSettings {
    /// How many bits it may use.
    pub bitrate: bool,
    /// What it is good at.
    pub tune: bool,
    /// How fast it is.
    pub speed_preset: bool,
    /// How often a picture stands on its own.
    pub key_int_max: bool,
}

/// A setting, where there is one.
pub open spec fn setting(known: bool, name: Seq<char>, value: Seq<char>) -> Seq<
    (Seq<char>, Seq<char>),
> {
    if known {
        seq![(name, value)]
    } else {
        Seq::empty()
    }
}

impl EncoderSettings {
    /// What an encoder for live pictures is set to.
    pub open spec fn live(self) -> Seq<(Seq<char>, Seq<char>)> {
        setting(self.bitrate, "bitrate"@, "2000"@) + setting(self.tune, "tune"@, "zerolatency"@)
            + setting(self.speed_preset, "speed-preset"@, "ultrafast"@) + setting(
            self.key_int_max,
            "key-int-max"@,
            "60"@,
        )
    }
}

fn push_setting(element: &mut Element, known: bool, name: &'static str, value: &str)
    ensures
        final(element).factory == old(element).factory,
        property_texts(final(element).properties@) == property_texts(old(element).properties@)
            + setting(known, name@, value@),
{
    if known {
        element.properties.push((name, value.to_owned()));
    }
    assert(property_texts(element.properties@) =~= property_texts(old(element).properties@)
        + setting(known, name@, value@));
}

/// What an element is set to, as texts.
pub open spec fn property_texts(properties: Seq<(&'static str, String)>) -> Seq<
    (Seq<char>, Seq<char>),
> {
    properties.map_values(|p: (&'static str, String)| (p.0@, p.1@))
}

/// An encoder for live pictures.
pub fn live_encoder(factory: &str, known: EncoderSettings) -> (r: Element)
    ensures
        is_element(r, factory@, known.live()),
{
    let mut r = new_element(factory);
    push_setting(&mut r, known.bitrate, "bitrate", "2000");
    push_setting(&mut r, known.tune, "tune", "zerolatency");
    push_setting(&mut r, known.speed_preset, "speed-preset", "ultrafast");
    push_setting(&mut r, known.key_int_max, "key-int-max", "60");
    proof {
        let texts = property_texts(r.properties@);
        assert(texts =~= known.live());
        assert forall|i: int| 0 <= i < texts.len() implies (#[trigger] r.properties@[i]).0@
            == known.live()[i].0 && r.properties@[i].1@ == known.live()[i].1 by {
            assert(texts[i] == (r.properties@[i].0@, r.properties@[i].1@));
        }
    }
    r
}

/// The other elements between a camera and a viewer, without their names: those before the
/// encoder and those behind it.
pub open spec fn viewer_chain() -> (
    Seq<(Seq<char>, Seq<(Seq<char>, Seq<char>)>)>,
    Seq<(Seq<char>, Seq<(Seq<char>, Seq<char>)>)>,
) {
    (
        seq![
            ("queue"@, seq![("max-size-time"@, "200000000"@)]),
            ("videoconvert"@, Seq::<(Seq<char>, Seq<char>)>::empty()),
        ],
        seq![
            ("h264parse"@, Seq::<(Seq<char>, Seq<char>)>::empty()),
            (
                "rtph264pay"@,
                seq![("config-interval"@, "-1"@), ("aggregate-mode"@, "zero-latency"@)],
            ),
            (
                "capsfilter"@,
                seq![
                    ("caps"@, "application/x-rtp,media=video,encoding-name=H264,payload=96"@),
                ],
            ),
            (
                "webrtcbin"@,
                seq![("bundle-policy"@, "max-bundle"@), ("stun-server"@, STUN_SERVER@)],
            ),
        ],
    )
}

/// The other elements between a camera and a viewer, without their names: those before the
/// encoder and those behind it.
pub fn viewer_elements() -> (r: (Vec<Element>, Vec<Element>))
    ensures
        are_elements(r.0@, viewer_chain().0),
        are_elements(r.1@, viewer_chain().1),
{
    let mut before: Vec<Element> = Vec::new();
    let mut queue = new_element("queue");
    queue.properties.push(("max-size-time", "200000000".to_owned()));
    before.push(queue);
    before.push(new_element("videoconvert"));
    let mut behind: Vec<Element> = Vec::new();
    behind.push(new_element("h264parse"));
    let mut pay = new_element("rtph264pay");
    pay.properties.push(("config-interval", "-1".to_owned()));
    pay.properties.push(("aggregate-mode", "zero-latency".to_owned()));
    behind.push(pay);
    let mut filter = new_element("capsfilter");
    filter.properties.push(
        ("caps", "application/x-rtp,media=video,encoding-name=H264,payload=96".to_owned()),
    );
    behind.push(filter);
    let mut end = new_element("webrtcbin");
    end.properties.push(("bundle-policy", "max-bundle".to_owned()));
    end.properties.push(("stun-server", STUN_SERVER.to_owned()));
    behind.push(end);
    (before, behind)
}

/// A kind of element of the media library.
#[derive(Debug)]
pub struct ElementFactory {
    /// What it is called.
    pub name: String,
    /// What it is for.
    pub klass: String,
    /// Whether it can give or take what is needed.
    pub fits: bool,
    /// How well it is recommended.
    pub rank: i32,
}

impl ElementFactory {
    /// Whether the hardware does the work.
    pub open spec fn hardware(self) -> bool {
        occurs(self.klass@, "Hardware"@)
    }

    /// Whether it is for all of this and fits.
    pub open spec fn suits(self, terms: Seq<&str>) -> bool {
        &&& self.fits
        &&& forall|i: int| 0 <= i < terms.len() ==> occurs(self.klass@, (#[trigger] terms[i])@)
    }

    /// Whether it is to be tried before another: hardware before software, then the better
    /// recommended.
    pub open spec fn before(self, other: Self) -> bool {
        if self.hardware() != other.hardware() {
            self.hardware()
        } else {
            self.rank > other.rank
        }
    }

    fn is_suited(&self, terms: &Vec<&str>) -> (r: bool)
        ensures
            r == self.suits(terms@),
    {
        if !self.fits {
            return false;
        }
        for i in 0..terms.len()
            invariant
                self.fits,
                forall|j: int| 0 <= j < i ==> occurs(self.klass@, (#[trigger] terms@[j])@),
        {
            if !contains(self.klass.as_str(), terms[i]) {
                assert(!occurs(self.klass@, terms@[i as int]@));
                return false;
            }
        }
        true
    }

    fn is_before(&self, other: &Self) -> (r: bool)
        ensures
            r == self.before(*other),
    {
        let a = contains(self.klass.as_str(), "Hardware");
        let b = contains(other.klass.as_str(), "Hardware");
        if a != b {
            a
        } else {
            self.rank > other.rank
        }
    }
}

/// Whether one element is tried earlier than another: where neither is to be tried before the
/// other, in the order in which they came.
pub open spec fn tried_earlier(factories: Seq<ElementFactory>, a: int, b: int) -> bool {
    factories[a].before(factories[b]) || (a < b && !factories[b].before(factories[a]))
}

/// Whether this is the order in which to try elements: all that suit are there, each once.
pub open spec fn is_trial_order(
    factories: Seq<ElementFactory>,
    terms: Seq<&str>,
    order: Seq<usize>,
) -> bool {
    &&& forall|i: int|
        0 <= i < order.len() ==> (#[trigger] order[i]) < factories.len()
            && factories[order[i] as int].suits(terms)
    &&& forall|k: int|
        0 <= k < factories.len() && (#[trigger] factories[k]).suits(terms) ==> order.contains(
            k as usize,
        )
    &&& forall|i: int, j: int|
        #![trigger order[i], order[j]]
        0 <= i < j < order.len() ==> tried_earlier(factories, order[i] as int, order[j] as int)
}

/// The order in which to try elements.
pub fn trial_order(factories: &Vec<ElementFactory>, klass_terms: &Vec<&str>) -> (r: Vec<usize>)
    ensures
        is_trial_order(factories@, klass_terms@, r@),
{
    let mut order: Vec<usize> = Vec::new();
    let n: usize = factories.len();
    for i in 0..n
        invariant
            n == factories@.len(),
            forall|x: int|
                0 <= x < order@.len() ==> (#[trigger] order@[x]) < i
                    && factories@[order@[x] as int].suits(klass_terms@),
            forall|k: int|
                0 <= k < i && (#[trigger] factories@[k]).suits(klass_terms@)
                    ==> order@.contains(k as usize),
            forall|x: int, y: int|
                #![trigger order@[x], order@[y]]
                0 <= x < y < order@.len() ==> tried_earlier(
                    factories@,
                    order@[x] as int,
                    order@[y] as int,
                ),
    {
        if factories[i].is_suited(klass_terms) {
            let mut at: usize = order.len();
            let ghost before = order@;
            while at > 0 && factories[i].is_before(&factories[order[at - 1]])
                invariant
                    n == factories@.len(),
                    i < n,
                    order@ == before,
                    at <= before.len(),
                    forall|x: int| 0 <= x < before.len() ==> (#[trigger] before[x]) < i,
                    forall|x: int|
                        at <= x < before.len() ==> factories@[i as int].before(
                            factories@[#[trigger] before[x] as int],
                        ),
                decreases at,
            {
                at -= 1;
            }
            order.insert(at, i);
            proof {
                let after = order@;
                assert(after == before.insert(at as int, i));
                assert forall|x: int, y: int| #![trigger after[x], after[y]]
                    0 <= x < y < after.len() implies tried_earlier(
                    factories@,
                    after[x] as int,
                    after[y] as int,
                ) by {
                    if x < at && y < at {
                        assert(tried_earlier(factories@, before[x] as int, before[y] as int));
                    } else if x < at && y > at {
                        assert(tried_earlier(factories@, before[x] as int, before[y - 1] as int));
                    } else if x > at {
                        assert(tried_earlier(factories@, before[x - 1] as int, before[y - 1] as int));
                    } else if x == at {
                        assert(after[y] == before[y - 1]);
                    } else if x < at - 1 {
                        assert(tried_earlier(factories@, before[x] as int, before[at - 1] as int));
                    }
                }
                assert forall|x: int| 0 <= x < after.len() implies (#[trigger] after[x]) < i + 1
                    && factories@[after[x] as int].suits(klass_terms@) by {
                    if x < at {
                        assert(after[x] == before[x]);
                    } else if x > at {
                        assert(after[x] == before[x - 1]);
                    }
                }
                assert forall|k: int|
                    0 <= k < i + 1 && (#[trigger] factories@[k]).suits(
                        klass_terms@,
                    ) implies after.contains(k as usize) by {
                    if k == i {
                        assert(after[at as int] == k as usize);
                    } else {
                        let x = choose|x: int| 0 <= x < before.len() && before[x] == k as usize;
                        if x < at {
                            assert(after[x] == k as usize);
                        } else {
                            assert(after[x + 1] == k as usize);
                        }
                    }
                }
            }
        }
    }
    order
}

/// The name of the element to use: the one that could be built, else the fallback.
pub fn selected(factories: &Vec<ElementFactory>, built: Option<usize>, fallback: &str) -> (r: String)
    requires
        built is Some ==> built->0 < factories@.len(),
    ensures
        r@ == match built {
            Some(i) => factories@[i as int].name@,
            None => fallback@,
        },
{
    match built {
        Some(i) => factories[i].name.clone(),
        None => fallback.to_owned(),
    }
}

/// The names of the parts that show the pictures of a camera to a viewer.
pub open spec fn viewer_part_prefixes() -> Seq<Seq<char>> {
    seq![
        "queue-"@,
        "convert-"@,
        "enc-"@,
        "parse-"@,
        "pay-"@,
        "capsfilter-"@,
        "webrtc-"@,
    ]
}

/// The names of the parts that show the pictures of a camera to a viewer.
pub fn viewer_parts(id: u64) -> (r: Vec<String>)
    ensures
        r@.len() == 7,
        forall|i: int|
            0 <= i < 7 ==> (#[trigger] r@[i])@ == viewer_part_prefixes()[i] + decimal(id as nat),
{
    let prefixes = ["queue-", "convert-", "enc-", "parse-", "pay-", "capsfilter-", "webrtc-"];
    let mut r: Vec<String> = Vec::new();
    for i in 0..7
        invariant
            r@.len() == i,
            prefixes@.map_values(|p: &str| p@) =~= viewer_part_prefixes(),
            forall|j: int|
                0 <= j < i ==> (#[trigger] r@[j])@ == viewer_part_prefixes()[j] + decimal(
                    id as nat,
                ),
    {
        let mut name = prefixes[i].to_owned();
        assert(name@ == prefixes@.map_values(|p: &str| p@)[i as int]);
        append_decimal(&mut name, id);
        r.push(name);
    }
    r
}

/// A camera and who is watching it.
#[derive(Debug)]
pub struct V4l2Device {
    device_path: String,
    running: Option<Viewers>,
}

#[derive(Debug)]
struct Viewers {
    next_id: u64,
    viewers: Vec<u64>,
}

/// What to do when someone starts to watch.
#[derive(Copy, Clone, Debug, PartialEq, Eq, Structural)]
pub struct Arrival {
    /// Whether the camera has to be started first.
    pub start: bool,
    /// The number of the viewer.
    pub id: u64,
}

/// What to do when someone stopped watching.
#[derive(Copy, Clone, Debug, PartialEq, Eq, Structural)]
pub enum Departure {
    /// Nothing: they were not watching.
    Unknown,
    /// Take their part of the pipeline out.
    Remove,
    /// Take their part out and stop the camera: nobody is left.
    RemoveAndStop,
}

impl V4l2Device {
    /// Who is watching.
    pub closed spec fn watching(self) -> Seq<u64> {
        match self.running {
            Some(running) => running.viewers@,
            None => Seq::empty(),
        }
    }

    /// The number that the next viewer gets.
    pub closed spec fn next_id(self) -> u64 {
        match self.running {
            Some(running) => running.next_id,
            None => 0,
        }
    }

    /// Whether the camera is running.
    pub closed spec fn is_running(self) -> bool {
        self.running is Some
    }

    /// Where the camera is.
    pub closed spec fn path(self) -> Seq<char> {
        self.device_path@
    }

    /// The camera runs exactly while someone is watching, and no two who watch have one number.
    pub open spec fn wf(self) -> bool {
        &&& self.is_running() <==> self.watching().len() > 0
        &&& self.watching().no_duplicates()
        &&& forall|i: int|
            0 <= i < self.watching().len() ==> (#[trigger] self.watching()[i]) < self.next_id()
    }

    /// A camera that nobody is watching.
    pub fn new(device_path: String) -> (r: Self)
        ensures
            r.wf(),
            r.path() == device_path@,
            r.watching() == Seq::<u64>::empty(),
            r.next_id() == 0,
    {
        V4l2Device { device_path, running: None }
    }

    /// Where the camera is.
    pub fn device_path(&self) -> (r: &str)
        ensures
            r@ == self.path(),
    {
        self.device_path.as_str()
    }

    /// Someone starts to watch.
    pub fn add_viewer(&mut self) -> (r: Arrival)
        requires
            old(self).wf(),
            old(self).next_id() < u64::MAX,
        ensures
            final(self).wf(),
            final(self).path() == old(self).path(),
            r.start == !old(self).is_running(),
            r.id == old(self).next_id(),
            !old(self).watching().contains(r.id),
            final(self).next_id() == r.id + 1,
            final(self).watching() == old(self).watching().push(r.id),
    {
        let mut running: Option<Viewers> = None;
        std::mem::swap(&mut self.running, &mut running);
        let start = running.is_none();
        let mut viewers = match running {
            Some(viewers) => viewers,
            None => Viewers { next_id: 0, viewers: Vec::new() },
        };
        let id: u64 = viewers.next_id;
        proof {
            assert(viewers.viewers@ =~= old(self).watching());
            assert forall|i: int| 0 <= i < viewers.viewers@.len() implies viewers.viewers@[i]
                != id by {
                assert(old(self).watching()[i] < old(self).next_id());
            }
        }
        viewers.next_id = id + 1;
        viewers.viewers.push(id);
        self.running = Some(viewers);
        Arrival { start, id }
    }

    /// Someone stops to watch. With the last one the camera stops, and numbers start anew.
    pub fn remove_viewer(&mut self, id: u64) -> (r: Departure)
        requires
            old(self).wf(),
        ensures
            final(self).wf(),
            final(self).path() == old(self).path(),
            if old(self).watching().contains(id) {
                &&& final(self).watching() == old(self).watching().remove_value(id)
                &&& if final(self).watching().len() == 0 {
                    r == Departure::RemoveAndStop && final(self).next_id() == 0
                } else {
                    r == Departure::Remove && final(self).next_id() == old(self).next_id()
                }
            } else {
                *final(self) == *old(self) && r == Departure::Unknown
            },
    {
        let mut running: Option<Viewers> = None;
        std::mem::swap(&mut self.running, &mut running);
        let mut viewers = match running {
            Some(viewers) => viewers,
            None => {
                return Departure::Unknown;
            },
        };
        let ghost before = viewers.viewers@;
        let ghost next_id = viewers.next_id;
        let n: usize = viewers.viewers.len();
        let mut at: usize = 0;
        while at < n && viewers.viewers[at] != id
            invariant
                n == viewers.viewers@.len(),
                at <= n,
                viewers.viewers@ == before,
                viewers.next_id == next_id,
                forall|j: int| 0 <= j < at ==> before[j] != id,
            decreases n - at,
        {
            at += 1;
        }
        if at == n {
            self.running = Some(viewers);
            return Departure::Unknown;
        }
        proof {
            assert(before == old(self).watching());
            assert(before.contains(id));
            before.index_of_first_ensures(id);
            assert(before.index_of_first(id) == Some(at as int));
        }
        viewers.viewers.remove(at);
        proof {
            let after = viewers.viewers@;
            assert(after =~= before.remove_value(id));
            assert forall|a: int, b: int| 0 <= a < b < after.len() implies after[a]
                != after[b] by {
                let x = if a < at { a } else { a + 1 };
                let y = if b < at { b } else { b + 1 };
                assert(before[x] != before[y]);
            }
            assert forall|a: int| 0 <= a < after.len() implies (#[trigger] after[a]) < next_id by {
                let x = if a < at { a } else { a + 1 };
                assert(old(self).watching()[x] < old(self).next_id());
            }
        }
        if viewers.viewers.len() == 0 {
            Departure::RemoveAndStop
        } else {
            self.running = Some(viewers);
            Departure::Remove
        }
    }
}

/// A device gives pictures if its first word on what it can do names capturing.
pub proof fn law_cameras_capture(device: Device, before: Seq<char>, after: Seq<char>, i: int)
    ensures
        0 <= i < device.properties@.len() && device.properties@[i].0@ == "ID_V4L_CAPABILITIES"@ && (
        forall|j: int|
            0 <= j < i ==> (#[trigger] device.properties@[j]).0@ != "ID_V4L_CAPABILITIES"@)
            && device.properties@[i].1@ == before + ":capture:"@ + after ==> gives_pictures(device),
        (forall|j: int|
            0 <= j < device.properties@.len() ==> (#[trigger] device.properties@[j]).0@
                != "ID_V4L_CAPABILITIES"@) ==> !gives_pictures(device),
        gives_pictures(device) ==> first_value(device.properties@, "ID_V4L_CAPABILITIES"@) is Some
            && exists|at: int|
            0 <= at && #[trigger] occurs_at(
                first_value(device.properties@, "ID_V4L_CAPABILITIES"@)->0,
                ":capture:"@,
                at,
            ),
{
    law_first_value_counts(device.properties@, "ID_V4L_CAPABILITIES"@, i);
    law_patterns_stand_by_characters(before, ":capture:"@, after, 0);
}

/// Pictures come from the device and end where viewers take them, decoded on the way if they are
/// compressed.
pub proof fn law_source_chain(device_path: Seq<char>, jpeg_decoder: Option<Seq<char>>)
    ensures
        ({
            let chain = source_chain(device_path, jpeg_decoder);
            &&& chain[0].0 == "v4l2src"@
            &&& chain[0].1 == seq![("device"@, device_path)]
            &&& chain.last().0 == "tee"@
            &&& chain.last().1 == seq![("allow-not-linked"@, "true"@)]
            &&& chain[chain.len() - 2].0 == "videoconvert"@
            &&& chain[chain.len() - 2].1.len() == 0
            &&& jpeg_decoder is None ==> chain.len() == 3
            &&& jpeg_decoder matches Some(decoder) ==> {
                &&& chain.len() == 6
                &&& chain[3].0 == decoder
                &&& chain[3].1.len() == 0
                &&& chain[2].0 == "jpegparse"@
                &&& chain[2].1.len() == 0
                &&& chain[1].0 == "capsfilter"@
                &&& chain[1].1 == seq![("caps"@, "image/jpeg"@)]
            }
        }),
{
}

/// An encoder is set for live pictures as far as it can be set: to what it knows of, and to nothing
/// else.
pub proof fn law_encoders_are_set(known: EncoderSettings, name: Seq<char>, value: Seq<char>)
    ensures
        known.live().contains((name, value)) <==> {
            ||| known.bitrate && name == "bitrate"@ && value == "2000"@
            ||| known.tune && name == "tune"@ && value == "zerolatency"@
            ||| known.speed_preset && name == "speed-preset"@ && value == "ultrafast"@
            ||| known.key_int_max && name == "key-int-max"@ && value == "60"@
        },
{
    let a = setting(known.bitrate, "bitrate"@, "2000"@);
    let b = setting(known.tune, "tune"@, "zerolatency"@);
    let c = setting(known.speed_preset, "speed-preset"@, "ultrafast"@);
    let d = setting(known.key_int_max, "key-int-max"@, "60"@);
    let all = known.live();
    assert(all =~= a + b + c + d);
    let p = (name, value);
    if known.bitrate && p == ("bitrate"@, "2000"@) {
        assert(all[0] == p);
    }
    if known.tune && p == ("tune"@, "zerolatency"@) {
        assert(all[a.len() as int] == p);
    }
    if known.speed_preset && p == ("speed-preset"@, "ultrafast"@) {
        assert(all[(a.len() + b.len()) as int] == p);
    }
    if known.key_int_max && p == ("key-int-max"@, "60"@) {
        assert(all[(a.len() + b.len() + c.len()) as int] == p);
    }
}

/// Of the elements that suit, those in hardware are tried first, then those of higher rank, and
/// equal ones as they are listed.
pub proof fn law_order_of_trials(
    factories: Seq<ElementFactory>,
    terms: Seq<&str>,
    order: Seq<usize>,
    i: int,
    j: int,
)
    requires
        is_trial_order(factories, terms, order),
        0 <= i < j < order.len(),
    ensures
        ({
            let a = factories[order[i] as int];
            let b = factories[order[j] as int];
            &&& occurs(b.klass@, "Hardware"@) ==> occurs(a.klass@, "Hardware"@)
            &&& occurs(a.klass@, "Hardware"@) == occurs(b.klass@, "Hardware"@) ==> a.rank >= b.rank
            &&& occurs(a.klass@, "Hardware"@) == occurs(b.klass@, "Hardware"@) && a.rank == b.rank
                ==> order[i] < order[j]
        }),
{
    assert(tried_earlier(factories, order[i] as int, order[j] as int));
}

/// An element is tried exactly if it fits and its class has all the terms.
pub proof fn law_trials_suit(
    factories: Seq<ElementFactory>,
    terms: Seq<&str>,
    order: Seq<usize>,
    k: usize,
)
    requires
        is_trial_order(factories, terms, order),
        k < factories.len(),
    ensures
        order.contains(k) <==> factories[k as int].fits && forall|t: int|
            0 <= t < terms.len() ==> occurs(factories[k as int].klass@, (#[trigger] terms[t])@),
{
    if order.contains(k) {
        let i = choose|i: int| 0 <= i < order.len() && order[i] == k;
        assert(factories[order[i] as int].suits(terms));
    }
    if factories[k as int].suits(terms) {
        assert(order.contains(k as int as usize));
    }
}

} // verus!
