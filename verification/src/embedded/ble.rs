//! The BLE service of the first firmware: three characteristics, their
//! attribute handles, and the client subscriptions.

use std::sync::atomic::{AtomicU16, Ordering};

use vstd::prelude::*;

use crate::gatt::{mask_after_write, Subscriptions};

verus! {

/// The application id registered with the GATT server.
pub const APP_ID: u16 = 0;

/// The service UUID 76e20500-da73-4971-bb03-6105e39db3d6.
pub const SERVICE: u128 = 0x76e2_0500_da73_4971_bb03_6105_e39d_b3d6;

/// The position characteristic UUID 300b2aec-a094-43fb-98ff-04917cf7a2fb.
pub const POSITION: u128 = 0x300b_2aec_a094_43fb_98ff_0491_7cf7_a2fb;

/// The speed characteristic UUID d948b9e5-6626-4d41-8967-c4dca26db1fd.
pub const SPEED: u128 = 0xd948_b9e5_6626_4d41_8967_c4dc_a26d_b1fd;

/// The wind characteristic UUID 91331b1c-3132-4197-aa43-b86b7df421f1.
pub const WIND: u128 = 0x9133_1b1c_3132_4197_aa43_b86b_7df4_21f1;

/// The characteristics the service offers, in the order they are added.
pub fn all() -> (r: [u128; 3])
    ensures
        r@ == seq![POSITION, SPEED, WIND],
{
    let r = [POSITION, SPEED, WIND];
    assert(r@ =~= seq![POSITION, SPEED, WIND]);
    r
}

#[derive(Debug, Clone, Copy, PartialEq, Eq, Hash, Structural)]
pub enum Characteristic {
    Position,
    Speed,
    Wind,
}

impl Characteristic {
    /// The characteristic's number in a subscription mask.
    pub open spec fn spec_index(self) -> u8 {
        match self {
            Characteristic::Position => 0,
            Characteristic::Speed => 1,
            Characteristic::Wind => 2,
        }
    }

    /// The characteristic's number in a subscription mask.
    pub fn index(&self) -> (r: u8)
        ensures
            r == self.spec_index(),
    {
        match self {
            Characteristic::Position => 0,
            Characteristic::Speed => 1,
            Characteristic::Wind => 2,
        }
    }
}

/// The characteristic with UUID `uuid`, if the service has one.
pub open spec fn characteristic_with_uuid(uuid: u128) -> Option<Characteristic> {
    if uuid == POSITION {
        Some(Characteristic::Position)
    } else if uuid == SPEED {
        Some(Characteristic::Speed)
    } else if uuid == WIND {
        Some(Characteristic::Wind)
    } else {
        None
    }
}

/// The characteristic with UUID `uuid`, if the service has one.
pub fn characteristic_for_uuid(uuid: u128) -> (r: Option<Characteristic>)
    ensures
        r == characteristic_with_uuid(uuid),
{
    if uuid == POSITION {
        Some(Characteristic::Position)
    } else if uuid == SPEED {
        Some(Characteristic::Speed)
    } else if uuid == WIND {
        Some(Characteristic::Wind)
    } else {
        None
    }
}

/// The characteristic whose attribute handle is `handle`, given the handles
/// of position, speed and wind (the first match wins).
pub open spec fn characteristic_at(handle: u16, position: u16, speed: u16, wind: u16) -> Option<
    Characteristic,
> {
    if handle == position {
        Some(Characteristic::Position)
    } else if handle == speed {
        Some(Characteristic::Speed)
    } else if handle == wind {
        Some(Characteristic::Wind)
    } else {
        None
    }
}

/// The characteristic whose attribute handle is `handle`, given the handles
/// of position, speed and wind (the first match wins).
pub fn characteristic_of(handle: u16, position: u16, speed: u16, wind: u16) -> (r: Option<
    Characteristic,
>)
    ensures
        r == characteristic_at(handle, position, speed, wind),
{
    if handle == position {
        Some(Characteristic::Position)
    } else if handle == speed {
        Some(Characteristic::Speed)
    } else if handle == wind {
        Some(Characteristic::Wind)
    } else {
        None
    }
}

/// The handle of `characteristic` among the handles of position, speed and
/// wind: the one its cell (`CharacteristicHandles::slot`) holds.
pub open spec fn handle_in(characteristic: Characteristic, position: u16, speed: u16, wind: u16) -> u16 {
    match characteristic {
        Characteristic::Position => position,
        Characteristic::Speed => speed,
        Characteristic::Wind => wind,
    }
}

/// Looking a handle up and back gives it again: for the same stored
/// handles, the characteristic found for `handle` has `handle` as its own,
/// whether or not the stored handles are distinct.
pub proof fn lemma_handle_inverts(handle: u16, position: u16, speed: u16, wind: u16)
    ensures
        characteristic_at(handle, position, speed, wind) matches Some(c) ==> handle_in(
            c,
            position,
            speed,
            wind,
        ) == handle,
{
}

/// The attribute handles the GATT server assigned, shared between the event
/// handler and the notifier.
pub struct CharacteristicHandles {
    pub position: AtomicU16,
    pub speed: AtomicU16,
    pub wind: AtomicU16,
}

impl Default for CharacteristicHandles {
    fn default() -> Self {
        CharacteristicHandles {
            position: AtomicU16::new(0),
            speed: AtomicU16::new(0),
            wind: AtomicU16::new(0),
        }
    }
}

impl CharacteristicHandles {
    /// The cell that holds the handle of `characteristic`.
    pub fn slot(&self, characteristic: &Characteristic) -> (r: &AtomicU16)
        ensures
            *r == match *characteristic {
                Characteristic::Position => self.position,
                Characteristic::Speed => self.speed,
                Characteristic::Wind => self.wind,
            },
    {
        match characteristic {
            Characteristic::Position => &self.position,
            Characteristic::Speed => &self.speed,
            Characteristic::Wind => &self.wind,
        }
    }

    /// Records the handle the server assigned to the characteristic with
    /// UUID `uuid`, in that characteristic's cell (`slot`); the service only
    /// adds its own characteristics.
    pub fn init(&self, uuid: u128, attr_handle: u16)
        requires
            characteristic_with_uuid(uuid) is Some,
    {
        match characteristic_for_uuid(uuid) {
            Some(characteristic) => self.slot(&characteristic).store(attr_handle, Ordering::Relaxed),
            None => {},
        }
    }

    /// The characteristic whose handle is `handle`, from the handles stored
    /// at the time of the call, decided by `characteristic_of`. Nothing is
    /// stated of the values the atomic loads read.
    pub fn characteristic(&self, handle: u16) -> Option<Characteristic> {
        let position = self.position.load(Ordering::Relaxed);
        let speed = self.speed.load(Ordering::Relaxed);
        let wind = self.wind.load(Ordering::Relaxed);
        characteristic_of(handle, position, speed, wind)
    }

    /// The handle stored in the cell of `characteristic` (`slot`). Nothing is
    /// stated of the value the atomic load reads.
    pub fn handle(&self, characteristic: &Characteristic) -> u16 {
        self.slot(characteristic).load(Ordering::Relaxed)
    }
}

/// A client wrote `value` to the configuration descriptor after the
/// characteristic `found` (looked up from the written handle): `[1, 0]`
/// subscribes and `[0, 0]` unsubscribes. Returns whether the write is
/// answered: the client is connected and the handle is a characteristic's.
pub fn on_write(
    clients: &mut Subscriptions,
    conn_id: u16,
    found: Option<Characteristic>,
    value: &[u8],
) -> (respond: bool)
    ensures
        respond == (old(clients)@.contains_key(conn_id) && found is Some),
        respond ==> final(clients)@ == old(clients)@.insert(
            conn_id,
            mask_after_write(old(clients)@[conn_id], found->0.spec_index(), value@, false),
        ),
        !respond ==> final(clients)@ == old(clients)@,
{
    match found {
        Some(characteristic) => clients.write(conn_id, characteristic.index(), value, false),
        None => false,
    }
}

/// The connections to indicate a new value of `characteristic` to: those
/// subscribed to it.
pub fn notify_targets(clients: &Subscriptions, characteristic: Characteristic) -> (r: Vec<u16>)
    ensures
        r@.no_duplicates(),
        forall|c: u16|
            r@.contains(c) <==> (clients@.contains_key(c) && crate::gatt::holds(
                clients@[c],
                characteristic.spec_index(),
            )),
{
    clients.subscribers(characteristic.index())
}

} // verus!
