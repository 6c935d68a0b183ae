//! Audio devices by name. Names are the identifier that the device picker
//! hands back when a transmission or a reception starts: they are stable per
//! physical device within a session.
//!
//! What the audio host enumerates comes in as the names it could read, `None`
//! for a device whose name it could not, or as the host's error.

use vstd::prelude::*;
use crate::error::{error_text, AudioIoError};
use crate::text::{copy_of, said, same_text};

verus! {

#[derive(Clone, Debug, PartialEq, Eq)]
pub struct DeviceInfo {
    pub name: String,
}

/// The names among what was enumerated.
pub open spec fn names_among(found: Seq<Option<String>>) -> Seq<Seq<char>>
    decreases found.len(),
{
    if found.len() == 0 {
        Seq::empty()
    } else {
        match found.last() {
            Some(name) => names_among(found.drop_last()).push(name@),
            None => names_among(found.drop_last()),
        }
    }
}

/// The names of a list of devices.
pub open spec fn device_names(devices: Seq<DeviceInfo>) -> Seq<Seq<char>> {
    devices.map_values(|d: DeviceInfo| d.name@)
}

/// Whether the device enumerated at `i` goes by that name.
pub open spec fn goes_by(found: Seq<Option<String>>, i: int, name: Seq<char>) -> bool {
    found[i] matches Some(n) && n@ == name
}

/// What listing the devices comes to.
pub open spec fn listed(
    found: Result<Vec<Option<String>>, String>,
    result: Result<Vec<DeviceInfo>, AudioIoError>,
) -> bool {
    match found {
        Ok(names) => result matches Ok(devices) && device_names(devices@) == names_among(names@),
        Err(e) => result matches Err(AudioIoError::NoHostDevices(s)) && s@ == e@,
    }
}

/// What looking for a device by its name comes to: the place of the first one
/// that goes by it.
pub open spec fn looked_up(
    found: Result<Vec<Option<String>>, String>,
    name: Seq<char>,
    result: Result<usize, AudioIoError>,
) -> bool {
    match found {
        Ok(names) => match result {
            Ok(i) => i < names@.len() && goes_by(names@, i as int, name) && forall|j: int|
                0 <= j < i ==> !goes_by(names@, j, name),
            Err(AudioIoError::DeviceNotFound(s)) => s@ == name && forall|j: int|
                0 <= j < names@.len() ==> !goes_by(names@, j, name),
            Err(_) => false,
        },
        Err(e) => result matches Err(AudioIoError::NoHostDevices(s)) && s@ == e@,
    }
}

fn list_devices(found: Result<Vec<Option<String>>, String>) -> (result: Result<
    Vec<DeviceInfo>,
    AudioIoError,
>)
    ensures
        listed(found, result),
{
    match found {
        Ok(names) => {
            let mut devices: Vec<DeviceInfo> = Vec::new();
            assert(names@.take(0) == Seq::<Option<String>>::empty());
            assert(device_names(devices@) == names_among(names@.take(0)));
            for i in 0..names.len()
                invariant
                    device_names(devices@) == names_among(names@.take(i as int)),
            {
                assert(names@.take(i + 1).drop_last() == names@.take(i as int));
                let ghost before = device_names(devices@);
                if let Some(name) = &names[i] {
                    let device = DeviceInfo { name: copy_of(name) };
                    devices.push(device);
                    assert(device_names(devices@) == before.push(name@));
                }
            }
            assert(names@.take(names@.len() as int) == names@);
            Ok(devices)
        },
        Err(e) => Err(AudioIoError::NoHostDevices(e)),
    }
}

fn find_device(found: Result<Vec<Option<String>>, String>, name: &str) -> (result: Result<
    usize,
    AudioIoError,
>)
    ensures
        looked_up(found, name@, result),
{
    match found {
        Ok(names) => {
            for i in 0..names.len()
                invariant
                    found == Ok::<Vec<Option<String>>, String>(names),
                    forall|j: int| 0 <= j < i ==> !goes_by(names@, j, name@),
            {
                if let Some(n) = &names[i] {
                    if same_text(n, name) {
                        return Ok(i);
                    }
                }
            }
            Err(AudioIoError::DeviceNotFound(copy_of(name)))
        },
        Err(e) => Err(AudioIoError::NoHostDevices(e)),
    }
}

/// The input devices for the device picker.
pub fn list_input_devices(found: Result<Vec<Option<String>>, String>) -> (result: Result<
    Vec<DeviceInfo>,
    AudioIoError,
>)
    ensures
        listed(found, result),
{
    list_devices(found)
}

/// The output devices for the device picker.
pub fn list_output_devices(found: Result<Vec<Option<String>>, String>) -> (result: Result<
    Vec<DeviceInfo>,
    AudioIoError,
>)
    ensures
        listed(found, result),
{
    list_devices(found)
}

/// Where among the enumerated input devices the one with that name stands.
pub fn find_input_device(found: Result<Vec<Option<String>>, String>, name: &str) -> (result: Result<
    usize,
    AudioIoError,
>)
    ensures
        looked_up(found, name@, result),
{
    find_device(found, name)
}

/// Where among the enumerated output devices the one with that name stands.
pub fn find_output_device(
    found: Result<Vec<Option<String>>, String>,
    name: &str,
) -> (result: Result<usize, AudioIoError>)
    ensures
        looked_up(found, name@, result),
{
    find_device(found, name)
}

// ---------------------------------------------------------------------
// Picking devices
// ---------------------------------------------------------------------

/// The device to start with: the first in the list.
pub open spec fn first_name(devices: Seq<DeviceInfo>) -> Option<Seq<char>> {
    if devices.len() > 0 {
        Some(devices[0].name@)
    } else {
        None
    }
}

/// The name of the first device, if there is any.
pub fn first_device(devices: &Vec<DeviceInfo>) -> (name: Option<String>)
    ensures
        said(name) == first_name(devices@),
{
    if devices.len() > 0 {
        Some(copy_of(&devices[0].name))
    } else {
        None
    }
}

/// The devices on offer, or why there are none.
pub struct DeviceLists {
    pub inputs: Vec<DeviceInfo>,
    pub outputs: Vec<DeviceInfo>,
    pub error: Option<String>,
}

/// The error to show where listing the devices failed: that of the inputs
/// before that of the outputs.
pub open spec fn listing_error(
    inputs: Result<Vec<DeviceInfo>, AudioIoError>,
    outputs: Result<Vec<DeviceInfo>, AudioIoError>,
) -> Option<Seq<char>> {
    match (inputs, outputs) {
        (Err(e), _) => Some(error_text(e)),
        (Ok(_), Err(e)) => Some(error_text(e)),
        (Ok(_), Ok(_)) => None,
    }
}

/// The devices to start with: none at all where listing either kind failed.
pub fn device_lists(
    inputs: Result<Vec<DeviceInfo>, AudioIoError>,
    outputs: Result<Vec<DeviceInfo>, AudioIoError>,
) -> (lists: DeviceLists)
    ensures
        said(lists.error) == listing_error(inputs, outputs),
        match (inputs, outputs) {
            (Ok(i), Ok(o)) => lists.inputs == i && lists.outputs == o,
            _ => lists.inputs@.len() == 0 && lists.outputs@.len() == 0,
        },
{
    match (inputs, outputs) {
        (Ok(inputs), Ok(outputs)) => DeviceLists { inputs, outputs, error: None },
        (Err(e), _) => DeviceLists {
            inputs: Vec::new(),
            outputs: Vec::new(),
            error: Some(e.message()),
        },
        (Ok(_), Err(e)) => DeviceLists {
            inputs: Vec::new(),
            outputs: Vec::new(),
            error: Some(e.message()),
        },
    }
}

/// Whether a device of that name is in the list.
pub open spec fn offers(devices: Seq<DeviceInfo>, name: Seq<char>) -> bool {
    device_names(devices).contains(name)
}

fn is_offered(devices: &Vec<DeviceInfo>, name: &str) -> (yes: bool)
    ensures
        yes == offers(devices@, name@),
{
    for i in 0..devices.len()
        invariant
            forall|j: int| 0 <= j < i ==> (#[trigger] devices@[j]).name@ != name@,
    {
        if same_text(&devices[i].name, name) {
            assert(device_names(devices@)[i as int] == name@);
            return true;
        }
    }
    assert(!offers(devices@, name@)) by {
        if offers(devices@, name@) {
            let j = choose|j: int|
                0 <= j < device_names(devices@).len() && device_names(devices@)[j] == name@;
            assert(devices@[j].name@ == name@);
        }
    }
    false
}

/// The selection that a fresh list leaves: the same as before while it is
/// still on offer, else the first device.
pub open spec fn kept_selection(devices: Seq<DeviceInfo>, selected: Option<Seq<char>>) -> Option<
    Seq<char>,
> {
    match selected {
        Some(name) => if offers(devices, name) {
            Some(name)
        } else {
            first_name(devices)
        },
        None => first_name(devices),
    }
}

/// The selection after the list has been refreshed.
pub fn keep_selection(devices: &Vec<DeviceInfo>, selected: Option<String>) -> (kept: Option<String>)
    ensures
        said(kept) == kept_selection(devices@, said(selected)),
{
    match selected {
        Some(name) => if is_offered(devices, &name) {
            Some(name)
        } else {
            first_device(devices)
        },
        None => first_device(devices),
    }
}

/// A selection that a refresh leaves is on offer, and there is one as long as
/// there is any device.
pub proof fn a_kept_selection_is_on_offer(devices: Seq<DeviceInfo>, selected: Option<Seq<char>>)
    ensures
        kept_selection(devices, selected) matches Some(name) ==> offers(devices, name),
        devices.len() > 0 ==> kept_selection(devices, selected) is Some,
{
    if devices.len() > 0 {
        assert(device_names(devices)[0] == devices[0].name@);
    }
}

/// A device that was listed by name is found by that name.
pub proof fn listed_devices_are_found(
    found: Vec<Option<String>>,
    devices: Vec<DeviceInfo>,
    i: int,
    result: Result<usize, AudioIoError>,
)
    requires
        listed(Ok(found), Ok(devices)),
        0 <= i < devices@.len(),
        looked_up(Ok(found), devices@[i].name@, result),
    ensures
        result is Ok,
{
    assert(device_names(devices@)[i] == devices@[i].name@);
    assert(names_among(found@).contains(devices@[i].name@));
    some_device_goes_by(found@, devices@[i].name@);
}

proof fn some_device_goes_by(found: Seq<Option<String>>, name: Seq<char>)
    requires
        names_among(found).contains(name),
    ensures
        exists|j: int| 0 <= j < found.len() && goes_by(found, j, name),
    decreases found.len(),
{
    if found.len() > 0 {
        let rest = found.drop_last();
        if goes_by(found, found.len() - 1, name) {
        } else {
            let k = choose|k: int|
                0 <= k < names_among(found).len() && names_among(found)[k] == name;
            assert(names_among(rest).contains(name)) by {
                if found.last() is Some {
                    assert(k < names_among(rest).len());
                    assert(names_among(rest)[k] == name);
                } else {
                    assert(names_among(rest)[k] == name);
                }
            }
            some_device_goes_by(rest, name);
            let j = choose|j: int| 0 <= j < rest.len() && goes_by(rest, j, name);
            assert(goes_by(found, j, name));
        }
    }
}

/// The picker offers every device whose name could be read and no other, in the
/// order in which they were found: what two rows come to, one behind the other,
/// is what the one comes to and then what the other does.
pub proof fn devices_are_listed_one_by_one(
    found: Seq<Option<String>>,
    more: Seq<Option<String>>,
    name: String,
)
    ensures
        names_among(found + more) == names_among(found) + names_among(more),
        names_among(seq![Some(name)]) == seq![name@],
        names_among(seq![None]) == Seq::<Seq<char>>::empty(),
    decreases more.len(),
{
    reveal_with_fuel(names_among, 2);
    assert(seq![Some(name)].drop_last() == Seq::<Option<String>>::empty());
    assert(seq![None::<String>].drop_last() == Seq::<Option<String>>::empty());
    assert(names_among(seq![Some(name)]) == seq![name@]);
    if more.len() == 0 {
        assert(found + more == found);
        assert(names_among(found) + names_among(more) == names_among(found));
    } else {
        devices_are_listed_one_by_one(found, more.drop_last(), name);
        assert((found + more).drop_last() == found + more.drop_last());
        assert((found + more).last() == more.last());
        assert(names_among(found + more) == names_among(found) + names_among(more));
    }
}

/// A listed device goes by the name that was found, and there is one for each
/// name; a host that failed is passed on.
pub proof fn listed_devices_go_by_their_names(
    found: Vec<Option<String>>,
    devices: Vec<DeviceInfo>,
    k: int,
)
    requires
        listed(Ok(found), Ok(devices)),
        0 <= k < devices@.len(),
    ensures
        devices@.len() == names_among(found@).len(),
        devices@[k].name@ == names_among(found@)[k],
{
    assert(device_names(devices@)[k] == devices@[k].name@);
}

/// A refresh keeps a selection exactly as long as a device of that name is
/// listed; else, and where nothing was selected, the first device is.
pub proof fn a_selection_is_kept_while_it_is_listed(devices: Seq<DeviceInfo>, name: Seq<char>)
    ensures
        (exists|i: int| 0 <= i < devices.len() && (#[trigger] devices[i]).name@ == name)
            ==> kept_selection(devices, Some(name)) == Some(name),
        (forall|i: int| 0 <= i < devices.len() ==> (#[trigger] devices[i]).name@ != name)
            ==> kept_selection(devices, Some(name)) == kept_selection(devices, None),
        devices.len() > 0 ==> kept_selection(devices, None) == Some(devices[0].name@)
            && first_name(devices) == Some(devices[0].name@),
        devices.len() == 0 ==> kept_selection(devices, None) is None && first_name(devices) is None,
{
    if exists|i: int| 0 <= i < devices.len() && (#[trigger] devices[i]).name@ == name {
        let i = choose|i: int| 0 <= i < devices.len() && (#[trigger] devices[i]).name@ == name;
        assert(device_names(devices)[i] == name);
    }
    if offers(devices, name) {
        let i = choose|i: int| 0 <= i < device_names(devices).len() && device_names(devices)[i]
            == name;
        assert(devices[i].name@ == name);
    }
}

/// A failure to list the devices is shown, that of the inputs before that of
/// the outputs, and nothing is where there was none.
pub proof fn a_failure_to_list_is_shown(
    inputs: Result<Vec<DeviceInfo>, AudioIoError>,
    outputs: Result<Vec<DeviceInfo>, AudioIoError>,
)
    ensures
        inputs matches Err(e) ==> listing_error(inputs, outputs) == Some(error_text(e)),
        inputs is Ok && outputs is Err ==> listing_error(inputs, outputs) == Some(
            error_text(outputs->Err_0),
        ),
        inputs is Ok && outputs is Ok ==> listing_error(inputs, outputs) is None,
{
}

/// Looking for a device gives the first one that goes by exactly that name, and
/// an error that names it where there is none.
pub proof fn devices_are_found_by_their_exact_name(
    found: Vec<Option<String>>,
    name: Seq<char>,
    result: Result<usize, AudioIoError>,
    host_error: String,
    failed: Result<usize, AudioIoError>,
    unlisted: Result<Vec<DeviceInfo>, AudioIoError>,
)
    requires
        looked_up(Ok(found), name, result),
        looked_up(Err(host_error), name, failed),
        listed(Err(host_error), unlisted),
    ensures
        result matches Ok(i) ==> {
            &&& i < found@.len()
            &&& found@[i as int] is Some
            &&& found@[i as int]->0@ == name
            &&& forall|j: int|
                0 <= j < i && (#[trigger] found@[j]) is Some ==> found@[j]->0@ != name
        },
        result is Err ==> {
            &&& result->Err_0 matches AudioIoError::DeviceNotFound(s) && s@ == name
            &&& forall|j: int|
                0 <= j < found@.len() && (#[trigger] found@[j]) is Some ==> found@[j]->0@ != name
        },
        failed matches Err(AudioIoError::NoHostDevices(s)) && s@ == host_error@,
        unlisted matches Err(AudioIoError::NoHostDevices(s)) && s@ == host_error@,
{
    assert forall|j: int|
        0 <= j < found@.len() && (#[trigger] found@[j]) is Some && (result matches Ok(i) ==> j
            < i) implies found@[j]->0@ != name by {
        none_goes_by(found, name, result, j);
    }
}

proof fn none_goes_by(
    found: Vec<Option<String>>,
    name: Seq<char>,
    result: Result<usize, AudioIoError>,
    j: int,
)
    requires
        looked_up(Ok(found), name, result),
        0 <= j < found@.len(),
        result matches Ok(i) ==> j < i,
    ensures
        !goes_by(found@, j, name),
{
    let names: Result<Vec<Option<String>>, String> = Ok(found);
    assert(names->Ok_0@ == found@);
}

} // verus!
