//! The desired state: devices, groups of devices, and zones.
//!
//! A configuration is loaded once and never changed. Devices and zones are
//! keyed by their identifier; the devices of a group and the groups of a zone
//! are sets. All of them are kept as lists, so that the order in which the
//! engine walks them is fixed; `wf` says that no key and no member is repeated.

use vstd::prelude::*;
use crate::names::contains_name;
use crate::seqs::{
    first_occurrences, keep_last, lemma_first_occurrences, lemma_survivors, superseded, survivors,
};

verus! {

/// A device, and the display name it should carry, if any.
#[derive(Clone, Debug, PartialEq, Eq)]
pub struct MultiroomConfigDevice {
    pub id: String,
    pub preferred_name: Option<String>,
}

/// A named set of devices that should play as one.
#[derive(Clone, Debug, PartialEq, Eq)]
pub struct MultiroomConfigGroup {
    pub name: String,
    pub devices: Vec<String>,
}

/// A destination: the stream it exposes and the groups that follow it.
#[derive(Clone, Debug, PartialEq, Eq)]
pub struct MultiroomConfigZone {
    pub id: String,
    pub stream: String,
    pub groups: Vec<String>,
}

/// The configuration as it is written down: plain lists, in which an
/// identifier may occur more than once.
#[derive(Clone, Debug, PartialEq, Eq)]
pub struct MultiroomConfigJson {
    pub server_address: String,
    pub devices: Vec<MultiroomConfigDevice>,
    pub groups: Vec<MultiroomConfigGroup>,
    pub zones: Vec<MultiroomConfigZone>,
}

/// The configuration the engine works on.
#[derive(Clone, Debug, PartialEq, Eq)]
pub struct MultiroomConfig {
    pub server_address: String,
    pub devices: Vec<MultiroomConfigDevice>,
    pub groups: Vec<MultiroomConfigGroup>,
    pub zones: Vec<MultiroomConfigZone>,
}

/// A device as the specifications see it.
pub struct DeviceModel {
    pub id: Seq<char>,
    pub preferred_name: Option<Seq<char>>,
}

/// A configured group as the specifications see it.
pub struct GroupModel {
    pub name: Seq<char>,
    pub devices: Seq<Seq<char>>,
}

/// A zone as the specifications see it.
pub struct ZoneModel {
    pub id: Seq<char>,
    pub stream: Seq<char>,
    pub groups: Seq<Seq<char>>,
}

/// A configuration as the specifications see it: every list in its order.
pub struct ConfigModel {
    pub server_address: Seq<char>,
    pub devices: Seq<DeviceModel>,
    pub groups: Seq<GroupModel>,
    pub zones: Seq<ZoneModel>,
}

impl View for MultiroomConfigDevice {
    type V = DeviceModel;

    open spec fn view(&self) -> DeviceModel {
        DeviceModel { id: self.id@, preferred_name: self.preferred_name.deep_view() }
    }
}

impl DeepView for MultiroomConfigDevice {
    type V = DeviceModel;

    open spec fn deep_view(&self) -> DeviceModel {
        self@
    }
}

impl View for MultiroomConfigGroup {
    type V = GroupModel;

    open spec fn view(&self) -> GroupModel {
        GroupModel { name: self.name@, devices: self.devices.deep_view() }
    }
}

impl DeepView for MultiroomConfigGroup {
    type V = GroupModel;

    open spec fn deep_view(&self) -> GroupModel {
        self@
    }
}

impl View for MultiroomConfigZone {
    type V = ZoneModel;

    open spec fn view(&self) -> ZoneModel {
        ZoneModel { id: self.id@, stream: self.stream@, groups: self.groups.deep_view() }
    }
}

impl DeepView for MultiroomConfigZone {
    type V = ZoneModel;

    open spec fn deep_view(&self) -> ZoneModel {
        self@
    }
}

impl View for MultiroomConfigJson {
    type V = ConfigModel;

    open spec fn view(&self) -> ConfigModel {
        ConfigModel {
            server_address: self.server_address@,
            devices: self.devices.deep_view(),
            groups: self.groups.deep_view(),
            zones: self.zones.deep_view(),
        }
    }
}

impl View for MultiroomConfig {
    type V = ConfigModel;

    open spec fn view(&self) -> ConfigModel {
        ConfigModel {
            server_address: self.server_address@,
            devices: self.devices.deep_view(),
            groups: self.groups.deep_view(),
            zones: self.zones.deep_view(),
        }
    }
}

/// Whether some zone has the identifier `id`.
pub open spec fn has_zone(zones: Seq<ZoneModel>, id: Seq<char>) -> bool {
    exists|i: int| 0 <= i < zones.len() && (#[trigger] zones[i]).id == id
}

/// No two devices share an identifier.
pub open spec fn distinct_device_ids(devices: Seq<DeviceModel>) -> bool {
    forall|i: int, j: int|
        0 <= i < j < devices.len() ==> (#[trigger] devices[i]).id != (#[trigger] devices[j]).id
}

/// No two zones share an identifier.
pub open spec fn distinct_zone_ids(zones: Seq<ZoneModel>) -> bool {
    forall|i: int, j: int|
        0 <= i < j < zones.len() ==> (#[trigger] zones[i]).id != (#[trigger] zones[j]).id
}

/// No two groups share a name.
pub open spec fn distinct_group_names(groups: Seq<GroupModel>) -> bool {
    forall|i: int, j: int|
        0 <= i < j < groups.len() ==> (#[trigger] groups[i]).name != (#[trigger] groups[j]).name
}

impl ConfigModel {
    /// Devices and zones are keyed by their identifier, and the member lists
    /// of groups and zones name nothing twice.
    pub open spec fn wf(self) -> bool {
        &&& distinct_device_ids(self.devices)
        &&& distinct_zone_ids(self.zones)
        &&& forall|i: int|
            0 <= i < self.groups.len() ==> (#[trigger] self.groups[i]).devices.no_duplicates()
        &&& forall|i: int|
            0 <= i < self.zones.len() ==> (#[trigger] self.zones[i]).groups.no_duplicates()
    }
}

impl MultiroomConfig {
    /// The configuration is keyed as `ConfigModel::wf` says.
    pub open spec fn wf(&self) -> bool {
        self@.wf()
    }
}

/// Whether some zone has the identifier `id`.
pub fn zone_exists(zones: &Vec<MultiroomConfigZone>, id: &String) -> (found: bool)
    ensures
        found == has_zone(zones.deep_view(), id@),
{
    let mut i: usize = 0;
    while i < zones.len()
        invariant
            i <= zones.len(),
            forall|j: int| 0 <= j < i ==> (#[trigger] zones.deep_view()[j]).id != id@,
        decreases zones.len() - i,
    {
        if zones[i].id == *id {
            assert(zones.deep_view()[i as int].id == id@);
            return true;
        }
        i += 1;
    }
    false
}

/// The identifier of a device.
pub open spec fn device_id() -> spec_fn(DeviceModel) -> Seq<char> {
    |device: DeviceModel| device.id
}

/// The identifier of a zone.
pub open spec fn zone_id() -> spec_fn(ZoneModel) -> Seq<char> {
    |zone: ZoneModel| zone.id
}

/// A group whose devices are listed once each.
pub open spec fn tidy_group() -> spec_fn(GroupModel) -> GroupModel {
    |group: GroupModel|
        GroupModel { name: group.name, devices: first_occurrences(group.devices) }
}

/// A zone whose groups are listed once each.
pub open spec fn tidy_zone() -> spec_fn(ZoneModel) -> ZoneModel {
    |zone: ZoneModel|
        ZoneModel { id: zone.id, stream: zone.stream, groups: first_occurrences(zone.groups) }
}

/// The configuration that a written configuration stands for: of several
/// devices or zones with one identifier the last counts, and a member named
/// twice is a member once.
pub open spec fn normalized(written: ConfigModel) -> ConfigModel {
    ConfigModel {
        server_address: written.server_address,
        devices: keep_last(written.devices, device_id()),
        groups: written.groups.map_values(tidy_group()),
        zones: keep_last(written.zones, zone_id()).map_values(tidy_zone()),
    }
}

/// A normalized configuration is well formed.
pub proof fn lemma_normalized_wf(written: ConfigModel)
    ensures
        normalized(written).wf(),
{
    let config = normalized(written);
    lemma_survivors(written.devices, device_id(), written.devices.len() as int);
    lemma_survivors(written.zones, zone_id(), written.zones.len() as int);
    let kept = keep_last(written.zones, zone_id());
    assert forall|i: int, j: int| 0 <= i < j < config.zones.len() implies (
    #[trigger] config.zones[i]).id != (#[trigger] config.zones[j]).id by {
        assert(zone_id()(kept[i]) != zone_id()(kept[j]));
    }
    assert forall|i: int| 0 <= i < config.groups.len() implies (
    #[trigger] config.groups[i]).devices.no_duplicates() by {
        lemma_first_occurrences(written.groups[i].devices);
    }
    assert forall|i: int| 0 <= i < config.zones.len() implies (
    #[trigger] config.zones[i]).groups.no_duplicates() by {
        lemma_first_occurrences(kept[i].groups);
    }
    assert forall|i: int, j: int| 0 <= i < j < config.devices.len() implies (
    #[trigger] config.devices[i]).id != (#[trigger] config.devices[j]).id by {
        assert(device_id()(config.devices[i]) != device_id()(config.devices[j]));
    }
}

/// The names of `list`, each once, in the order of their first occurrence.
pub fn distinct_names(list: &Vec<String>) -> (once: Vec<String>)
    ensures
        once.deep_view() == first_occurrences(list.deep_view()),
{
    let ghost names = list.deep_view();
    let mut once: Vec<String> = Vec::new();
    let mut i: usize = 0;
    assert(once.deep_view() =~= first_occurrences(names.take(0)));
    while i < list.len()
        invariant
            i <= list.len(),
            names == list.deep_view(),
            once.deep_view() == first_occurrences(names.take(i as int)),
        decreases list.len() - i,
    {
        proof {
            assert(names.take(i + 1).drop_last() =~= names.take(i as int));
        }
        if !contains_name(&once, &list[i]) {
            let ghost before = once.deep_view();
            once.push(list[i].clone());
            assert(once.deep_view() =~= before.push(names[i as int]));
        }
        i += 1;
    }
    assert(names.take(list.len() as int) =~= names);
    once
}

/// Whether a later device has the identifier of the device at `i`.
pub fn device_recurs(devices: &Vec<MultiroomConfigDevice>, i: usize) -> (recurs: bool)
    requires
        i < devices.len(),
    ensures
        recurs == superseded(devices.deep_view(), device_id(), i as int),
{
    let ghost ds = devices.deep_view();
    let mut j: usize = i + 1;
    while j < devices.len()
        invariant
            i < j <= devices.len(),
            ds == devices.deep_view(),
            forall|k: int| i < k < j ==> device_id()(#[trigger] ds[k]) != device_id()(ds[i as int]),
        decreases devices.len() - j,
    {
        if devices[j].id == devices[i].id {
            assert(device_id()(ds[j as int]) == device_id()(ds[i as int]));
            return true;
        }
        j += 1;
    }
    false
}

/// Whether a later zone has the identifier of the zone at `i`.
pub fn zone_recurs(zones: &Vec<MultiroomConfigZone>, i: usize) -> (recurs: bool)
    requires
        i < zones.len(),
    ensures
        recurs == superseded(zones.deep_view(), zone_id(), i as int),
{
    let ghost zs = zones.deep_view();
    let mut j: usize = i + 1;
    while j < zones.len()
        invariant
            i < j <= zones.len(),
            zs == zones.deep_view(),
            forall|k: int| i < k < j ==> zone_id()(#[trigger] zs[k]) != zone_id()(zs[i as int]),
        decreases zones.len() - j,
    {
        if zones[j].id == zones[i].id {
            assert(zone_id()(zs[j as int]) == zone_id()(zs[i as int]));
            return true;
        }
        j += 1;
    }
    false
}

/// The devices keyed by identifier: of several with one identifier, the last.
pub fn keyed_devices(devices: &Vec<MultiroomConfigDevice>) -> (keyed: Vec<MultiroomConfigDevice>)
    ensures
        keyed.deep_view() == keep_last(devices.deep_view(), device_id()),
{
    let ghost ds = devices.deep_view();
    let mut keyed: Vec<MultiroomConfigDevice> = Vec::new();
    let mut i: usize = 0;
    assert(keyed.deep_view() =~= survivors(ds, device_id(), 0));
    while i < devices.len()
        invariant
            i <= devices.len(),
            ds == devices.deep_view(),
            keyed.deep_view() == survivors(ds, device_id(), i as int),
        decreases devices.len() - i,
    {
        if !device_recurs(devices, i) {
            let ghost before = keyed.deep_view();
            let preferred_name = match &devices[i].preferred_name {
                Some(name) => Some(name.clone()),
                None => None,
            };
            keyed.push(MultiroomConfigDevice { id: devices[i].id.clone(), preferred_name });
            assert(keyed.deep_view() =~= before.push(ds[i as int]));
        }
        i += 1;
    }
    keyed
}

/// The zones keyed by identifier: of several with one identifier, the last;
/// each with its groups listed once.
pub fn keyed_zones(zones: &Vec<MultiroomConfigZone>) -> (keyed: Vec<MultiroomConfigZone>)
    ensures
        keyed.deep_view() == keep_last(zones.deep_view(), zone_id()).map_values(tidy_zone()),
{
    let ghost zs = zones.deep_view();
    let mut keyed: Vec<MultiroomConfigZone> = Vec::new();
    let mut i: usize = 0;
    assert(keyed.deep_view() =~= survivors(zs, zone_id(), 0).map_values(tidy_zone()));
    while i < zones.len()
        invariant
            i <= zones.len(),
            zs == zones.deep_view(),
            keyed.deep_view() == survivors(zs, zone_id(), i as int).map_values(tidy_zone()),
        decreases zones.len() - i,
    {
        if !zone_recurs(zones, i) {
            let ghost before = keyed.deep_view();
            keyed.push(
                MultiroomConfigZone {
                    id: zones[i].id.clone(),
                    stream: zones[i].stream.clone(),
                    groups: distinct_names(&zones[i].groups),
                },
            );
            assert(keyed.deep_view() =~= before.push(tidy_zone()(zs[i as int])));
            assert(survivors(zs, zone_id(), i + 1).map_values(tidy_zone()) =~= before.push(
                tidy_zone()(zs[i as int]),
            ));
        }
        i += 1;
    }
    keyed
}

/// The groups, each with its devices listed once.
pub fn tidy_groups(groups: &Vec<MultiroomConfigGroup>) -> (tidy: Vec<MultiroomConfigGroup>)
    ensures
        tidy.deep_view() == groups.deep_view().map_values(tidy_group()),
{
    let ghost gs = groups.deep_view();
    let mut tidy: Vec<MultiroomConfigGroup> = Vec::new();
    let mut i: usize = 0;
    assert(tidy.deep_view() =~= gs.take(0).map_values(tidy_group()));
    while i < groups.len()
        invariant
            i <= groups.len(),
            gs == groups.deep_view(),
            tidy.deep_view() == gs.take(i as int).map_values(tidy_group()),
        decreases groups.len() - i,
    {
        let ghost before = tidy.deep_view();
        tidy.push(
            MultiroomConfigGroup {
                name: groups[i].name.clone(),
                devices: distinct_names(&groups[i].devices),
            },
        );
        assert(tidy.deep_view() =~= before.push(tidy_group()(gs[i as int])));
        assert(gs.take(i + 1).map_values(tidy_group()) =~= before.push(
            tidy_group()(gs[i as int]),
        ));
        i += 1;
    }
    assert(gs.take(groups.len() as int) =~= gs);
    tidy
}

/// Turns a written configuration into the one the engine works on.
///
/// Devices and zones become keyed by their identifier, the last entry for
/// an identifier replacing the earlier ones, and member lists become sets.
pub fn init_config(written: MultiroomConfigJson) -> (config: MultiroomConfig)
    ensures
        config@ == normalized(written@),
        config.wf(),
{
    proof {
        lemma_normalized_wf(written@);
    }
    let devices = keyed_devices(&written.devices);
    let groups = tidy_groups(&written.groups);
    let zones = keyed_zones(&written.zones);
    MultiroomConfig { server_address: written.server_address, devices, groups, zones }
}

} // verus!
