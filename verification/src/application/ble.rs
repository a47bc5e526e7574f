//! The BLE service of the current firmware: one wind-screen characteristic,
//! its attribute handle, and the client subscriptions.

use std::sync::atomic::{AtomicU16, Ordering};

use vstd::prelude::*;

use crate::gatt::{mask_after_write, Subscriptions};

verus! {

/// The application id registered with the GATT server.
pub const APP_ID: u16 = 0;

/// The service UUID 76e20500-da73-4971-bb03-6105e39db3d6.
pub const SERVICE: u128 = 0x76e2_0500_da73_4971_bb03_6105_e39d_b3d6;

/// The wind-screen characteristic UUID 300b2aec-a094-43fb-98ff-04917cf7a2fb.
pub const WIND_SCREEN: u128 = 0x300b_2aec_a094_43fb_98ff_0491_7cf7_a2fb;

/// The characteristics the service offers.
pub fn all() -> (r: [u128; 1])
    ensures
        r@ == seq![WIND_SCREEN],
{
    let r = [WIND_SCREEN];
    assert(r@ =~= seq![WIND_SCREEN]);
    r
}

#[derive(Debug, Clone, Copy, PartialEq, Eq, Hash, Structural)]
pub enum Characteristic {
    WindScreen,
}

impl Characteristic {
    /// The characteristic's number in a subscription mask.
    pub open spec fn spec_index(self) -> u8 {
        0
    }

    /// The characteristic's number in a subscription mask.
    pub fn index(&self) -> (r: u8)
        ensures
            r == self.spec_index(),
    {
        0
    }
}

/// The characteristic with UUID `uuid`, if the service has one.
pub open spec fn characteristic_with_uuid(uuid: u128) -> Option<Characteristic> {
    if uuid == WIND_SCREEN {
        Some(Characteristic::WindScreen)
    } else {
        None
    }
}

/// The characteristic with UUID `uuid`, if the service has one.
pub fn characteristic_for_uuid(uuid: u128) -> (r: Option<Characteristic>)
    ensures
        r == characteristic_with_uuid(uuid),
{
    if uuid == WIND_SCREEN {
        Some(Characteristic::WindScreen)
    } else {
        None
    }
}

/// The characteristic whose attribute handle is `handle`, given the
/// wind-screen handle.
pub open spec fn characteristic_at(handle: u16, wind_screen: u16) -> Option<Characteristic> {
    if handle == wind_screen {
        Some(Characteristic::WindScreen)
    } else {
        None
    }
}

/// The characteristic whose attribute handle is `handle`, given the
/// wind-screen handle.
pub fn characteristic_of(handle: u16, wind_screen: u16) -> (r: Option<Characteristic>)
    ensures
        r == characteristic_at(handle, wind_screen),
{
    if handle == wind_screen {
        Some(Characteristic::WindScreen)
    } else {
        None
    }
}

/// The handle of `characteristic`, given the wind-screen handle: the one
/// its cell (`CharacteristicHandles::slot`) holds.
pub open spec fn handle_in(characteristic: Characteristic, wind_screen: u16) -> u16 {
    match characteristic {
        Characteristic::WindScreen => wind_screen,
    }
}

/// Looking a handle up and back gives it again: for the same stored handle,
/// the characteristic found for `handle` has `handle` as its own.
pub proof fn lemma_handle_inverts(handle: u16, wind_screen: u16)
    ensures
        characteristic_at(handle, wind_screen) matches Some(c) ==> handle_in(c, wind_screen)
            == handle,
{
}

/// The attribute handle the GATT server assigned, shared between the event
/// handler and the notifier.
pub struct CharacteristicHandles {
    pub wind_screen: AtomicU16,
}

impl Default for CharacteristicHandles {
    fn default() -> Self {
        CharacteristicHandles { wind_screen: AtomicU16::new(0) }
    }
}

impl CharacteristicHandles {
    /// The cell that holds the handle of `characteristic`.
    pub fn slot(&self, characteristic: &Characteristic) -> (r: &AtomicU16)
        ensures
            *r == match *characteristic {
                Characteristic::WindScreen => self.wind_screen,
            },
    {
        match characteristic {
            Characteristic::WindScreen => &self.wind_screen,
        }
    }

    /// Records the handle the server assigned to the characteristic with
    /// UUID `uuid`, in that characteristic's cell (`slot`); the service only
    /// adds its own characteristic.
    pub fn init(&self, uuid: u128, attr_handle: u16)
        requires
            characteristic_with_uuid(uuid) is Some,
    {
        match characteristic_for_uuid(uuid) {
            Some(characteristic) => self.slot(&characteristic).store(attr_handle, Ordering::Relaxed),
            None => {},
        }
    }

    /// The characteristic whose handle is `handle`, from the handle stored at
    /// the time of the call, decided by `characteristic_of`. Nothing is stated
    /// of the value the atomic load reads.
    pub fn characteristic(&self, handle: u16) -> Option<Characteristic> {
        let wind_screen = self.wind_screen.load(Ordering::Relaxed);
        characteristic_of(handle, wind_screen)
    }

    /// The handle stored in the cell of `characteristic` (`slot`). Nothing is
    /// stated of the value the atomic load reads.
    pub fn handle(&self, characteristic: &Characteristic) -> u16 {
        self.slot(characteristic).load(Ordering::Relaxed)
    }
}

/// A client wrote `value` to the configuration descriptor after the
/// characteristic `found` (looked up from the written handle): `[1, 0]` or
/// `[2, 0]` subscribes and `[0, 0]` unsubscribes. Returns whether the write
/// is answered: the client is connected and the handle is a
/// characteristic's.
pub fn on_write(
    clients: &mut Subscriptions,
    conn_id: u16,
    found: Option<Characteristic>,
    value: &[u8],
) -> (respond: bool)
    ensures
        respond == (old(clients)@.contains_key(conn_id) && found is Some),
        respond ==> final(clients)@ == old(clients)@.insert(
            conn_id,
            mask_after_write(old(clients)@[conn_id], found->0.spec_index(), value@, true),
        ),
        !respond ==> final(clients)@ == old(clients)@,
{
    match found {
        Some(characteristic) => clients.write(conn_id, characteristic.index(), value, true),
        None => false,
    }
}

/// The connections to indicate a new value of `characteristic` to: those
/// subscribed to it.
pub fn notify_targets(clients: &Subscriptions, characteristic: Characteristic) -> (r: Vec<u16>)
    ensures
        r@.no_duplicates(),
        forall|c: u16|
            r@.contains(c) <==> (clients@.contains_key(c) && crate::gatt::holds(
                clients@[c],
                characteristic.spec_index(),
            )),
{
    clients.subscribers(characteristic.index())
}

} // verus!
