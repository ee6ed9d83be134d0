//! Where devices sit on the weathermap. The coordinates stay with the
//! caller: a position record is known here by its identifier and by the
//! device it belongs to.

use vstd::prelude::*;
use crate::inventory::{
    device_by_fqdn, first_match, lemma_first_position_is, record_fqdn, DeviceRecord, Inventory,
    InventoryView,
};
use crate::string_map::StringMap;

verus! {

/// A position record of the inventory: its identifier, and the identifier
/// of the device whose position it holds.
#[derive(Clone, Copy, Debug, PartialEq, Eq, Structural)]
pub struct WeathermapDeviceInfo {
    pub id: i32,
    pub device_id: i32,
}

/// The first position record of the device with that identifier.
pub open spec fn weathermap_position(infos: Seq<WeathermapDeviceInfo>, device_id: i32) -> Option<
    WeathermapDeviceInfo,
> {
    first_match(infos, |p: WeathermapDeviceInfo| p.device_id == device_id)
}

/// For each of the devices that has a position record, the identifier of
/// that record under the device's fully-qualified name. Where two devices
/// share a name, the later one is shown.
pub open spec fn positions_of(devices: Seq<DeviceRecord>, infos: Seq<WeathermapDeviceInfo>) -> Map<
    Seq<char>,
    i32,
>
    decreases devices.len(),
{
    if devices.len() == 0 {
        Map::empty()
    } else {
        let head = positions_of(devices.drop_last(), infos);
        match weathermap_position(infos, devices.last().id) {
            Some(p) => head.insert(record_fqdn(devices.last()), p.id),
            None => head,
        }
    }
}

/// What a write of a device's position does to the inventory.
#[derive(Clone, Copy, Debug, PartialEq, Eq, Structural)]
pub enum PositionWrite {
    /// The inventory knows no device of that name: nothing is written.
    UnknownDevice,
    /// The device has a position record: the record with this identifier is
    /// updated.
    Update { id: i32 },
    /// The device has no position record: one is created for the device with
    /// this identifier.
    Create { device_id: i32 },
}

/// What a write of the position of device `fqdn` does.
pub open spec fn position_write(
    inv: InventoryView,
    infos: Seq<WeathermapDeviceInfo>,
    fqdn: Seq<char>,
) -> PositionWrite {
    match device_by_fqdn(inv, fqdn) {
        None => PositionWrite::UnknownDevice,
        Some(d) => match weathermap_position(infos, d.id) {
            Some(p) => PositionWrite::Update { id: p.id },
            None => PositionWrite::Create { device_id: d.id },
        },
    }
}

/// The first position record of the device with that identifier.
pub fn find_position(infos: &Vec<WeathermapDeviceInfo>, device_id: i32) -> (r: Option<
    WeathermapDeviceInfo,
>)
    ensures
        r == weathermap_position(infos@, device_id),
{
    let ghost p = |p: WeathermapDeviceInfo| p.device_id == device_id;
    let mut i: usize = 0;
    while i < infos.len()
        invariant
            i <= infos.len(),
            p == |p: WeathermapDeviceInfo| p.device_id == device_id,
            forall|j: int| 0 <= j < i ==> !p(#[trigger] infos@[j]),
        decreases infos.len() - i,
    {
        if infos[i].device_id == device_id {
            proof {
                lemma_first_position_is(infos@, p, i as int);
            }
            return Some(infos[i]);
        }
        i += 1;
    }
    proof {
        lemma_first_position_is(infos@, p, i as int);
    }
    None
}

/// The weathermap positions: for each device of the inventory that has a
/// position record, the identifier of that record under the device's
/// fully-qualified name.
pub fn get_position_data(inventory: &Inventory, infos: &Vec<WeathermapDeviceInfo>) -> (r: StringMap<
    i32,
>)
    ensures
        r@ == positions_of(inventory@.devices, infos@),
{
    let mut positions: StringMap<i32> = StringMap::new();
    let ghost all = inventory@.devices;
    let mut k: usize = 0;
    proof {
        assert(all.subrange(0, 0) =~= Seq::<DeviceRecord>::empty());
    }
    while k < inventory.devices.len()
        invariant
            k <= inventory.devices.len(),
            all == inventory@.devices,
            all.len() == inventory.devices.len(),
            positions@ == positions_of(all.subrange(0, k as int), infos@),
        decreases inventory.devices.len() - k,
    {
        proof {
            assert(all.subrange(0, k + 1).drop_last() =~= all.subrange(0, k as int));
            assert(all.subrange(0, k + 1).last() == all[k as int]);
        }
        let device = &inventory.devices[k];
        match find_position(infos, device.id) {
            Some(p) => {
                positions.insert(device.fqdn(), p.id);
            },
            None => {},
        }
        k += 1;
    }
    proof {
        assert(all.subrange(0, k as int) =~= all);
    }
    positions
}

/// Decides what a write of the position of device `device_fqdn` does: the
/// device's record is updated where it has one, and created where it has
/// none.
pub fn put_position_data(
    inventory: &Inventory,
    infos: &Vec<WeathermapDeviceInfo>,
    device_fqdn: &String,
) -> (w: PositionWrite)
    ensures
        w == position_write(inventory@, infos@, device_fqdn@),
{
    match inventory.device_by_fqdn(device_fqdn) {
        None => PositionWrite::UnknownDevice,
        Some(device) => match find_position(infos, device.id) {
            Some(p) => PositionWrite::Update { id: p.id },
            None => PositionWrite::Create { device_id: device.id },
        },
    }
}

} // verus!
