use windlink::application::app::{on_packet, Boat, IndicatorEvent};
use windlink::bus::Nmea2000;
use windlink::packets::motion::{CogSogRapidUpdate, PositionRapidUpdate, WindData};
use windlink::packets::Packet;
use windlink::application::ble::{
    all, characteristic_for_uuid, notify_targets, on_write, Characteristic, CharacteristicHandles,
    WIND_SCREEN,
};
use windlink::application::indicator::{next_mode, Mode};
use windlink::application::wifi::{api_packet, encode_api_frame};
use windlink::gatt::Subscriptions;

#[test]
fn wind_screen_uuid_matches_its_text() {
    let u = uuid::Uuid::parse_str("300b2aec-a094-43fb-98ff-04917cf7a2fb").unwrap();
    assert_eq!(WIND_SCREEN, u.as_u128());
    assert_eq!(all(), [WIND_SCREEN]);
}

#[test]
fn wind_screen_packet() {
    let mut boat = Boat::default();
    boat.position_update(1, 2);
    assert_eq!(boat.speed_update(0x0102), Characteristic::WindScreen);
    assert_eq!(boat.wind_update(0x0304, 0x0506), Characteristic::WindScreen);
    assert_eq!(boat.packet(Characteristic::WindScreen), vec![2, 1, 4, 3, 6, 5]);
    assert_eq!((boat.latitude, boat.longitude), (1, 2));
}

#[test]
fn wind_screen_handle() {
    let handles = CharacteristicHandles::default();
    handles.init(WIND_SCREEN, 12);
    assert_eq!(handles.characteristic(12), Some(Characteristic::WindScreen));
    assert_eq!(handles.characteristic(13), None);
    assert_eq!(handles.handle(&Characteristic::WindScreen), 12);
    assert_eq!(characteristic_for_uuid(1), None);
}

#[test]
fn indications_subscribe() {
    let mut clients = Subscriptions::new();
    clients.connect(4);
    assert!(on_write(&mut clients, 4, Some(Characteristic::WindScreen), &[2, 0]));
    assert_eq!(notify_targets(&clients, Characteristic::WindScreen), vec![4]);
    assert!(on_write(&mut clients, 4, Some(Characteristic::WindScreen), &[0, 0]));
    assert!(notify_targets(&clients, Characteristic::WindScreen).is_empty());
    assert!(on_write(&mut clients, 4, Some(Characteristic::WindScreen), &[9, 9, 9]));
    assert!(notify_targets(&clients, Characteristic::WindScreen).is_empty());
}

#[test]
fn indicator_turns_solid_once() {
    assert_eq!(next_mode(Mode::Idle, None), Mode::Idle);
    assert_eq!(next_mode(Mode::Idle, Some(IndicatorEvent::CanOnline)), Mode::Active);
    assert_eq!(next_mode(Mode::Active, Some(IndicatorEvent::CanOnline)), Mode::Active);
    assert_eq!(next_mode(Mode::Active, None), Mode::Active);
}

#[test]
fn api_frame_roundtrip() {
    let bytes = encode_api_frame(0x19F0_1423, 3, [1, 2, 3, 4, 5, 6, 7, 8]);
    assert_eq!(bytes, vec![0x19, 0xF0, 0x14, 0x23, 3, 1, 2, 3]);
    let (id, data) = api_packet([bytes[0], bytes[1], bytes[2], bytes[3]], &bytes[5..]);
    assert_eq!(id, 0x19F0_1423);
    assert_eq!(data, [1, 2, 3, 0, 0, 0, 0, 0]);
    assert_eq!(encode_api_frame(7, 0, [9; 8]), vec![0, 0, 0, 7, 0]);
}

#[test]
fn closed_clients_are_dropped() {
    let mut clients = vec!['a', 'b', 'c', 'd'];
    windlink::application::app::retain_open(&mut clients, &vec![false, true, true, false]);
    assert_eq!(clients, vec!['a', 'd']);
    let mut none: Vec<u8> = Vec::new();
    windlink::application::app::retain_open(&mut none, &Vec::new());
    assert!(none.is_empty());
}

#[test]
fn wind_screen_slot() {
    let handles = CharacteristicHandles::default();
    handles.init(WIND_SCREEN, 21);
    let slot = handles.slot(&Characteristic::WindScreen);
    assert_eq!(slot.load(std::sync::atomic::Ordering::Relaxed), 21);
}

#[test]
fn current_firmware_handles_bus_packets() {
    let mut boat = Boat::default();
    let mut node = Nmea2000::new();
    let p = Packet::PositionRapidUpdate(PositionRapidUpdate { latitude: 3, longitude: 4 });
    assert_eq!(on_packet(&mut boat, &mut node, p), None);
    let c = Packet::CogSogRapidUpdate(CogSogRapidUpdate { sid: 0, cog_reference: 0, cog: 0, sog: 5 });
    assert_eq!(on_packet(&mut boat, &mut node, c), Some(Characteristic::WindScreen));
    let w = Packet::WindData(WindData { sid: 0, wind_speed: 6, wind_angle: 7, reference: 0 });
    assert_eq!(on_packet(&mut boat, &mut node, w), Some(Characteristic::WindScreen));
    assert_eq!(
        boat,
        Boat { latitude: 3, longitude: 4, wind_speed: 6, wind_angle: 7, speed_over_ground: 5 }
    );
}
