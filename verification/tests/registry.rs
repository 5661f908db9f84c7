use boardswarm::authentication::{RoleVerifier, Roles};
use boardswarm::directory::{first_event, known_type, next_event, ItemEvent, Server};
use boardswarm::ids::{ActuatorId, ConsoleId, DeviceId, ItemId, VolumeId};
use boardswarm::registry::{
    Item, NoVerification, Properties, Registry, RegistryChange, RegistryMonitor, INSTANCE,
    NAME,
};
use boardswarm::remote::ItemType;
use boardswarm::status::Code;

fn pairs(list: &[(&str, &str)]) -> Vec<(String, String)> {
    list.iter().map(|(k, v)| (k.to_string(), v.to_string())).collect()
}

#[test]
fn properties() {
    let mut props = Properties::new("test");
    props.insert("udev.BADGER", "5");

    assert_eq!(props.get(NAME), Some("test"));
    assert_eq!(props.name(), "test");

    let mut t = std::collections::HashMap::new();
    t.insert(NAME.to_string(), "test".to_string());
    assert!(props.matches(&t.into_iter().collect()));

    let empty: std::collections::HashMap<String, String> = std::collections::HashMap::new();
    assert!(props.matches(&empty.into_iter().collect()));

    assert!(props.matches(&pairs(&[(NAME, "test")])));
    assert!(props.matches(&pairs(&[("udev.BADGER", "5")])));

    assert!(!props.matches(&pairs(&[(NAME, "no")])));
    assert!(!props.matches(&pairs(&[("udev.BADGER", "7")])));
    assert!(!props.matches(&pairs(&[("udev.SNAKE", "7")])));

    assert!(props.matches(&pairs(&[(NAME, "test"), ("udev.BADGER", "5")])));
    assert!(!props.matches(&pairs(&[(NAME, "test"), ("udev.BADGER", "7")])));
    assert!(!props.matches(&pairs(&[(NAME, "test"), ("udev.SNAKE", "5")])));
}

#[test]
fn an_empty_match_is_for_local_items() {
    let mut props = Properties::new("test");
    assert!(props.matches(&vec![]));
    props.insert(INSTANCE, "elsewhere");
    assert_eq!(props.instance(), Some("elsewhere"));
    assert!(!props.matches(&vec![]));
    assert!(props.matches(&pairs(&[(INSTANCE, "elsewhere")])));
}

#[test]
fn properties_are_replaced() {
    let mut props = Properties::from_pairs(&pairs(&[("a", "1"), ("b", "2"), ("a", "3")]));
    assert_eq!(props.get("a"), Some("3"));
    assert_eq!(props.iter().len(), 2);
    props.extend(&pairs(&[("b", "4"), ("c", "5")]));
    assert_eq!(props.get("b"), Some("4"));
    assert_eq!(props.get("c"), Some("5"));
    assert_eq!(props.name(), "");
}

#[test]
fn items_share_their_properties() {
    let item = Item::new(7u8, Properties::new("board"), "inner".to_string());
    let copy = item.clone();
    assert_eq!(copy.name(), "board");
    assert_eq!(*copy.acl(), 7);
    assert_eq!(copy.inner(), "inner");
    assert!(std::sync::Arc::ptr_eq(&item.properties(), &copy.properties()));
    assert_eq!(item.into_inner(), "inner");
}

#[test]
fn ids_are_given_out_once() {
    let mut registry: Registry<NoVerification, u64, u32> = Registry::new(NoVerification {});
    let (a, item) = registry.add((), Properties::new("a"), 10);
    assert_eq!(item.name(), "a");
    let (b, _) = registry.add((), Properties::new("b"), 20);
    assert_eq!((a, b), (0, 1));
    assert!(registry.remove(b).is_some());
    assert!(registry.remove(b).is_none());
    let (c, _) = registry.add((), Properties::new("c"), 30);
    assert_eq!(c, 2);
    assert_eq!(registry.ids(&()), vec![0, 2]);
    assert_eq!(registry.lookup(2, &()).map(|i| *i.inner()), Some(30));
    assert!(registry.lookup(1, &()).is_none());
    assert_eq!(registry.contents(&()).len(), 2);
    assert_eq!(registry.contents_no_auth().len(), 2);
    let found = registry.find(&pairs(&[(NAME, "c")]), &());
    assert_eq!(found.map(|(id, item)| (id, *item.inner())), Some((2, 30)));
    assert!(registry.find(&pairs(&[(NAME, "b")]), &()).is_none());
}

fn with_roles(names: &[&str]) -> Roles {
    Roles { roles: std::sync::Arc::new(names.iter().map(|n| n.to_string()).collect()) }
}

#[test]
fn only_what_may_be_seen_is_listed() {
    let mut registry: Registry<RoleVerifier, u64, &str> = Registry::new(RoleVerifier::new(true));
    registry.add(vec!["guest".to_string()], Properties::new("open"), "open");
    registry.add(vec!["admin".to_string()], Properties::new("closed"), "closed");
    let guest = with_roles(&["guest"]);
    let both = with_roles(&["guest", "admin"]);
    assert_eq!(registry.ids(&guest), vec![0]);
    assert_eq!(registry.ids(&both), vec![0, 1]);
    assert!(registry.lookup(1, &guest).is_none());
    assert!(registry.lookup(1, &both).is_some());
    let monitor = RegistryMonitor { verifier: RoleVerifier::new(true), cred: guest };
    let gone = registry.remove(1).unwrap();
    assert!(monitor.pass(gone).is_none());
    let gone = registry.remove(0).unwrap();
    assert!(matches!(monitor.pass(gone), Some(RegistryChange::Removed(0))));
}

type Items = Server<NoVerification, u8, u8, u8, u8, u8, u8, u8>;

fn server() -> Items {
    Server {
        actuators: Registry::new(NoVerification {}),
        devices: Registry::new(NoVerification {}),
        consoles: Registry::new(NoVerification {}),
        volumes: Registry::new(NoVerification {}),
        media: Registry::new(NoVerification {}),
        keyboards: Registry::new(NoVerification {}),
        mice: Registry::new(NoVerification {}),
    }
}

#[test]
fn a_server_keeps_kinds_apart() {
    let mut server = server();
    let id = server.register_console((), Properties::new("uart"), 3);
    assert_eq!(id, ConsoleId(0));
    let v = server.register_volume((), Properties::new("disk"), 4);
    assert_eq!(v, VolumeId(0));
    assert_eq!(server.get_console(id, &()), Some(&3));
    assert_eq!(server.get_volume(v, &()), Some(&4));
    assert!(server.get_device(DeviceId(0), &()).is_none());
    let list = server.item_list_for(ItemType::Console, &());
    assert_eq!(list.len(), 1);
    assert_eq!((list[0].id, list[0].name.as_str()), (0, "uart"));
    assert!(server.item_list_for(ItemType::Mouse, &()).is_empty());
    assert!(server.unregister_console(id, &()).is_some());
    assert!(server.unregister_console(id, &()).is_none());
    assert!(server.get_console(id, &()).is_none());
}

#[test]
fn properties_of_items_are_told() {
    let mut server = server();
    let mut props = Properties::new("power");
    props.insert("udev.BADGER", "5");
    let id = server.register_actuator((), props, 9);
    let told = server.item_properties(ItemType::Actuator, id.value(), &()).unwrap();
    assert_eq!(told.len(), 2);
    assert!(told.contains(&("udev.BADGER".to_string(), "5".to_string())));
    let missing = server.item_properties(ItemType::Actuator, 8, &()).unwrap_err();
    assert_eq!(missing.code, Code::NotFound);
    assert_eq!(missing.message, "Item not found");
    assert_eq!(server.find_actuator(&pairs(&[("udev.BADGER", "5")]), &()), Some(&9));
    assert!(server.find_actuator(&pairs(&[("udev.BADGER", "6")]), &()).is_none());
    assert_eq!(ActuatorId(0).display(), "Actuator 0");
}

#[test]
fn listeners_hear_of_all_items() {
    let mut server = server();
    server.register_mouse((), Properties::new("a"), 1);
    match first_event(&server.mice, &()) {
        ItemEvent::Added(list) => assert_eq!(list[0].name, "a"),
        ItemEvent::Removed(_) => panic!("nothing was removed"),
    }
    let (id, item) = server.mice.add((), Properties::new("b"), 2);
    match next_event(&RegistryChange::Added { id, item }) {
        ItemEvent::Added(list) => assert_eq!((list[0].id, list[0].name.as_str()), (1, "b")),
        ItemEvent::Removed(_) => panic!("nothing was removed"),
    }
    let change: RegistryChange<DeviceId, (), u8> = RegistryChange::Removed(DeviceId(4));
    assert!(matches!(next_event(&change), ItemEvent::Removed(4)));
}

#[test]
fn all_kinds_come_and_go() {
    let mut server = server();
    let actuator = server.register_actuator((), Properties::new("a"), 1);
    let device = server.register_device((), Properties::new("b"), 2);
    let volume = server.register_volume((), Properties::new("c"), 3);
    let media = server.register_media((), Properties::new("d"), 4);
    let keyboard = server.register_keyboard((), Properties::new("e"), 5);
    let mouse = server.register_mouse((), Properties::new("f"), 6);
    assert_eq!(server.get_actuator(actuator, &()), Some(&1));
    assert_eq!(server.get_device(device, &()), Some(&2));
    assert_eq!(server.get_volume(volume, &()), Some(&3));
    assert_eq!(server.get_media(media, &()), Some(&4));
    assert_eq!(server.get_keyboard(keyboard, &()), Some(&5));
    assert_eq!(server.get_mouse(mouse, &()), Some(&6));
    assert!(server.unregister_actuator(actuator, &()).is_some());
    assert!(server.unregister_device(device, &()).is_some());
    assert!(server.unregister_volume(volume, &()).is_some());
    assert!(server.unregister_media(media, &()).is_some());
    assert!(server.unregister_keyboard(keyboard, &()).is_some());
    assert!(server.unregister_mouse(mouse, &()).is_some());
    assert!(server.get_actuator(actuator, &()).is_none());
    assert!(server.get_device(device, &()).is_none());
    assert!(server.get_volume(volume, &()).is_none());
    assert!(server.get_media(media, &()).is_none());
    assert!(server.get_keyboard(keyboard, &()).is_none());
    assert!(server.get_mouse(mouse, &()).is_none());
    assert_eq!(server.register_device((), Properties::new("g"), 7), DeviceId(1));
}

#[test]
fn unknown_kinds_are_refused() {
    assert_eq!(known_type(Some(ItemType::Media)).unwrap(), ItemType::Media);
    let refused = known_type(None).unwrap_err();
    assert_eq!((refused.code, refused.message.as_str()), (Code::InvalidArgument, "Unknown item type "));
}
