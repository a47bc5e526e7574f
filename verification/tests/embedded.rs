use windlink::bus::Nmea2000;
use windlink::embedded::app::Boat;
use windlink::embedded::ble::{
    all, characteristic_for_uuid, characteristic_of, notify_targets, on_write, Characteristic,
    CharacteristicHandles, POSITION, SERVICE, SPEED, WIND,
};
use windlink::embedded::can::{on_packet, product_info};
use windlink::embedded::wifi::flash_chunk_start;
use windlink::gatt::Subscriptions;
use windlink::packets::handshake::{IsoRequest, ProductInformation};
use windlink::packets::motion::{CogSogRapidUpdate, PositionRapidUpdate, VesselHeading, WindData};
use windlink::packets::Packet;

#[test]
fn characteristic_uuids_match_their_text() {
    let parse = |s: &str| uuid::Uuid::parse_str(s).unwrap().as_u128();
    assert_eq!(SERVICE, parse("76e20500-da73-4971-bb03-6105e39db3d6"));
    assert_eq!(POSITION, parse("300b2aec-a094-43fb-98ff-04917cf7a2fb"));
    assert_eq!(SPEED, parse("d948b9e5-6626-4d41-8967-c4dca26db1fd"));
    assert_eq!(WIND, parse("91331b1c-3132-4197-aa43-b86b7df421f1"));
    assert_eq!(all(), [POSITION, SPEED, WIND]);
}

#[test]
fn boat_packets() {
    let boat = Boat {
        latitude: -2,
        longitude: 0x0102_0304,
        wind_speed: 0x0506,
        wind_angle: 0x0708,
        speed_over_ground: 0x090A,
    };
    assert_eq!(boat.packet(Characteristic::Position), vec![4, 3, 2, 1, 0xFE, 0xFF, 0xFF, 0xFF]);
    assert_eq!(boat.packet(Characteristic::Speed), vec![0x0A, 0x09]);
    assert_eq!(boat.packet(Characteristic::Wind), vec![0x06, 0x05, 0x08, 0x07]);
    assert_eq!(Boat::default().packet(Characteristic::Speed), vec![0, 0]);
}

#[test]
fn handles_lookup() {
    let handles = CharacteristicHandles::default();
    handles.init(POSITION, 40);
    handles.init(SPEED, 42);
    handles.init(WIND, 44);
    assert_eq!(handles.characteristic(42), Some(Characteristic::Speed));
    assert_eq!(handles.characteristic(44), Some(Characteristic::Wind));
    assert_eq!(handles.characteristic(43), None);
    assert_eq!(handles.handle(&Characteristic::Position), 40);
    assert_eq!(characteristic_for_uuid(WIND), Some(Characteristic::Wind));
    assert_eq!(characteristic_for_uuid(SERVICE), None);
    assert_eq!(characteristic_of(5, 5, 5, 5), Some(Characteristic::Position));
}

#[test]
fn subscriptions_follow_descriptor_writes() {
    let mut clients = Subscriptions::new();
    clients.connect(1);
    clients.connect(2);
    assert!(on_write(&mut clients, 1, Some(Characteristic::Wind), &[1, 0]));
    assert!(on_write(&mut clients, 2, Some(Characteristic::Wind), &[2, 0]));
    assert!(!on_write(&mut clients, 3, Some(Characteristic::Wind), &[1, 0]));
    assert!(!on_write(&mut clients, 1, None, &[1, 0]));
    assert_eq!(notify_targets(&clients, Characteristic::Wind), vec![1]);
    assert!(notify_targets(&clients, Characteristic::Speed).is_empty());
    assert!(on_write(&mut clients, 1, Some(Characteristic::Wind), &[0, 0]));
    assert!(notify_targets(&clients, Characteristic::Wind).is_empty());
    on_write(&mut clients, 2, Some(Characteristic::Speed), &[1, 0]);
    clients.disconnect(2);
    assert!(notify_targets(&clients, Characteristic::Speed).is_empty());
}

#[test]
fn bus_packets_update_the_boat() {
    let mut boat = Boat::default();
    let mut node = Nmea2000::new();
    let n = on_packet(
        &mut boat,
        &mut node,
        Packet::PositionRapidUpdate(PositionRapidUpdate { latitude: 5, longitude: 6 }),
    );
    assert_eq!(n, Some(Characteristic::Position));
    let n = on_packet(
        &mut boat,
        &mut node,
        Packet::CogSogRapidUpdate(CogSogRapidUpdate { sid: 0, cog_reference: 0, cog: 1, sog: 77 }),
    );
    assert_eq!(n, Some(Characteristic::Speed));
    let n = on_packet(
        &mut boat,
        &mut node,
        Packet::WindData(WindData { sid: 0, wind_speed: 8, wind_angle: 9, reference: 0 }),
    );
    assert_eq!(n, Some(Characteristic::Wind));
    let n = on_packet(
        &mut boat,
        &mut node,
        Packet::VesselHeading(VesselHeading { sid: 0, heading: 1, deviation: 2, variation: 3, reference: 0 }),
    );
    assert_eq!(n, None);
    assert_eq!(
        boat,
        Boat { latitude: 5, longitude: 6, wind_speed: 8, wind_angle: 9, speed_over_ground: 77 }
    );
}

#[test]
fn product_information_request_is_queued() {
    let mut boat = Boat::default();
    let mut node = Nmea2000::new();
    assert_eq!(node.dequeue().len(), 1);
    node.on_packet(0x09FD_0210, [0; 8]);
    let n = on_packet(&mut boat, &mut node, Packet::IsoRequest(IsoRequest { pgn: ProductInformation::PGN }));
    assert_eq!(n, None);
    on_packet(&mut boat, &mut node, Packet::IsoRequest(IsoRequest { pgn: 0x1234 }));
    let start = std::time::Instant::now();
    while start.elapsed() < std::time::Duration::from_millis(300) {}
    let frames = node.dequeue();
    assert_eq!(frames.len(), 20);
    assert_eq!(frames[0].id, 0x19F0_1400);
    assert_eq!(frames[0].data, [0, 134, 1, 0, 1, 0, b'w', b'i']);
}

#[test]
fn product_info_fields() {
    let p = product_info();
    assert_eq!(p.version, 1);
    assert_eq!(&p.model_id[..9], b"windlink\0");
    assert_eq!(&p.software_version[..7], b"v0.1.0\0");
    assert_eq!(&p.serial_code[..5], b"1234\0");
}

#[test]
fn flash_upload_skips_header() {
    assert_eq!(flash_chunk_start(b"abc\r\ndef\r\n", 3), (4, 0));
    assert_eq!(flash_chunk_start(b"abcdef", 3), (6, 2));
    assert_eq!(flash_chunk_start(b"\nabc", 1), (0, 0));
    assert_eq!(flash_chunk_start(b"abc\n", 0), (0, 0));
    assert_eq!(flash_chunk_start(b"", 2), (0, 2));
}

#[test]
fn slots_belong_to_their_characteristic() {
    let handles = CharacteristicHandles::default();
    handles.init(SPEED, 9);
    assert_eq!(handles.handle(&Characteristic::Speed), 9);
    assert_eq!(handles.handle(&Characteristic::Position), 0);
    assert_eq!(handles.handle(&Characteristic::Wind), 0);
    assert!(std::ptr::eq(handles.slot(&Characteristic::Wind), &handles.wind));
}

#[test]
fn handle_of_found_characteristic_is_the_handle() {
    let handles = CharacteristicHandles::default();
    handles.init(POSITION, 5);
    handles.init(SPEED, 5);
    handles.init(WIND, 9);
    for h in [5u16, 9, 10] {
        if let Some(c) = handles.characteristic(h) {
            assert_eq!(handles.handle(&c), h);
        }
    }
    assert_eq!(handles.characteristic(5), Some(Characteristic::Position));
    assert_eq!(handles.characteristic(10), None);
}
