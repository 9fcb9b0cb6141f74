//! Sending a stream to a device on the network.

use vstd::prelude::*;
use super::title::{truncate_chars, truncated};
use crate::find::{begins, starts_with};
use crate::text::{dec, join, join_strings, push_dec, same, split_words, trim, trimmed, views, words};

verus! {

/// A device that plays streams.
#[derive(Clone, Debug)]
pub struct CastDevice {
    pub name: String,
    pub location: String,
}

/// Whether a part of a device's name says what it is: not the protocol, not the
/// system.
pub open spec fn telling(part: Seq<char>) -> bool {
    !begins(part, "UPnP/"@) && !begins(part, "Linux/"@)
}

/// The parts of a name that say what the device is.
pub open spec fn telling_parts(parts: Seq<Seq<char>>) -> Seq<Seq<char>>
    decreases parts.len(),
{
    if parts.len() == 0 {
        Seq::empty()
    } else {
        let rest = telling_parts(parts.drop_last());
        if telling(parts.last()) { rest.push(parts.last()) } else { rest }
    }
}

/// A device's name as the picker shows it; the name as it is where nothing in it
/// says what the device is.
pub open spec fn device_text(raw: Seq<char>) -> Seq<char> {
    let cleaned = join(telling_parts(words(raw)), " "@);
    truncated(trim(if trim(cleaned).len() == 0 { raw } else { cleaned }), 40)
}

/// See [`device_text`].
pub fn short_name(raw: &str) -> (r: String)
    ensures
        r@ == device_text(raw@),
{
    let parts = split_words(raw);
    let ghost all = views(parts@);
    let mut kept: Vec<String> = Vec::new();
    let mut i: usize = 0;
    assert(all.take(0) =~= Seq::<Seq<char>>::empty());
    assert(views(kept@) =~= Seq::<Seq<char>>::empty());
    while i < parts.len()
        invariant
            i <= parts@.len(),
            all == views(parts@),
            views(kept@) == telling_parts(all.take(i as int)),
        decreases parts@.len() - i,
    {
        assert(all.take(i + 1).drop_last() =~= all.take(i as int));
        assert(all.take(i + 1).last() == parts@[i as int]@);
        let p = parts[i].as_str();
        if !starts_with(p, "UPnP/") && !starts_with(p, "Linux/") {
            let ghost was = views(kept@);
            kept.push(parts[i].clone());
            assert(views(kept@) =~= was.push(parts@[i as int]@));
        }
        i = i + 1;
    }
    assert(all.take(i as int) =~= all);
    let cleaned = join_strings(&kept, " ");
    let t = trimmed(cleaned.as_str());
    if t.as_str().is_empty() {
        truncate_chars(trimmed(raw).as_str(), 40)
    } else {
        truncate_chars(t.as_str(), 40)
    }
}

/// What a device holds.
pub type DeviceView = (Seq<char>, Seq<char>);

/// The devices as they are.
pub open spec fn devices_view(v: Seq<CastDevice>) -> Seq<DeviceView> {
    Seq::new(v.len(), |i: int| (v[i].name@, v[i].location@))
}

/// Whether some device is at a place.
pub open spec fn is_at(list: Seq<DeviceView>, location: Seq<char>) -> bool {
    exists|i: int| 0 <= i < list.len() && (#[trigger] list[i]).1 == location
}

/// Takes in a device that answered; one that answered before is not listed again.
pub fn discovered(list: &mut Vec<CastDevice>, d: CastDevice)
    ensures
        devices_view(final(list)@) == (if is_at(devices_view(old(list)@), d.location@) {
            devices_view(old(list)@)
        } else {
            devices_view(old(list)@).push((d.name@, d.location@))
        }),
{
    let ghost all = devices_view(list@);
    let mut i: usize = 0;
    while i < list.len()
        invariant
            i <= list@.len(),
            all == devices_view(list@),
            all == devices_view(old(list)@),
            forall|j: int| 0 <= j < i ==> (#[trigger] all[j]).1 != d.location@,
        decreases list@.len() - i,
    {
        assert(all[i as int].1 == list@[i as int].location@);
        if same(list[i].location.as_str(), d.location.as_str()) {
            assert(is_at(all, d.location@));
            return;
        }
        i = i + 1;
    }
    assert(!is_at(all, d.location@));
    let ghost (n, l) = (d.name@, d.location@);
    list.push(d);
    assert(devices_view(list@) =~= all.push((n, l)));
}

/// What is said of a search for devices.
pub open spec fn found_text(n: nat) -> Seq<char> {
    if n == 0 {
        "No cast devices found on this network."@
    } else if n == 1 {
        "1 device found."@
    } else {
        dec(n) + " devices found."@
    }
}

/// See [`found_text`].
pub fn found_line(n: usize) -> (r: String)
    ensures
        r@ == found_text(n as nat),
{
    if n == 0 {
        "No cast devices found on this network.".to_owned()
    } else if n == 1 {
        "1 device found.".to_owned()
    } else {
        let mut s = String::new();
        push_dec(&mut s, n as u64);
        assert(s@ =~= dec(n as nat));
        s.append(" devices found.");
        s
    }
}

/// Where the first device of a name in the picker is.
pub open spec fn location_of(list: Seq<DeviceView>, name: Seq<char>) -> Option<Seq<char>>
    decreases list.len(),
{
    if list.len() == 0 {
        None
    } else if device_text(list[0].0) == name {
        Some(list[0].1)
    } else {
        location_of(list.skip(1), name)
    }
}

/// Whether a stream can be sent.
#[derive(Debug)]
pub enum CastStart {
    /// No stream is armed.
    NoStream,
    /// The device is no longer listed.
    NoDevice,
    /// The stream goes to the device at this place.
    To(String),
}

/// Sends the stream that is armed to a device of the picker.
pub fn stream_cast_to(list: &Vec<CastDevice>, name: &str, armed: bool) -> (r: CastStart)
    ensures
        r is NoStream <==> !armed,
        r is NoDevice <==> armed && location_of(devices_view(list@), name@) is None,
        r matches CastStart::To(l) ==> Some(l@) == location_of(devices_view(list@), name@),
{
    if !armed {
        return CastStart::NoStream;
    }
    let ghost all = devices_view(list@);
    let mut i: usize = 0;
    assert(all.skip(0) =~= all);
    while i < list.len()
        invariant
            i <= list@.len(),
            armed,
            all == devices_view(list@),
            location_of(all, name@) == location_of(all.skip(i as int), name@),
        decreases list@.len() - i,
    {
        assert(all.skip(i as int)[0] == all[i as int]);
        assert(all.skip(i as int).skip(1) =~= all.skip(i + 1));
        let n = short_name(list[i].name.as_str());
        if same(n.as_str(), name) {
            return CastStart::To(list[i].location.clone());
        }
        i = i + 1;
    }
    CastStart::NoDevice
}

/// A name keeps the parts that say what the device is, in order.
pub proof fn law_a_device_is_named_by_what_tells(parts: Seq<Seq<char>>)
    ensures
        telling_parts(parts) == parts.filter(|x: Seq<char>| !begins(x, "UPnP/"@) && !begins(x, "Linux/"@)),
    decreases parts.len(),
{
    reveal(Seq::filter);
    let p = |x: Seq<char>| !begins(x, "UPnP/"@) && !begins(x, "Linux/"@);
    let wanted = parts.filter(|x: Seq<char>| !begins(x, "UPnP/"@) && !begins(x, "Linux/"@));
    if parts.len() > 0 {
        let front = parts.drop_last();
        law_a_device_is_named_by_what_tells(front);
        let kept = front.filter(p);
        assert(parts.filter(p) == (if p(parts.last()) { kept.push(parts.last()) } else { kept }));
        assert(front.filter(|x: Seq<char>| !begins(x, "UPnP/"@) && !begins(x, "Linux/"@)) == telling_parts(front));
    }
    assert(telling_parts(parts) =~= wanted);
}

/// A device is the first that the picker shows under the name.
pub proof fn law_a_device_is_found_by_its_name(list: Seq<DeviceView>, name: Seq<char>)
    ensures
        (exists|i: int|
            0 <= i < list.len() && device_text((#[trigger] list[i]).0) == name && location_of(list, name) == Some(list[i].1) && forall|j: int|
                0 <= j < i ==> !(device_text((#[trigger] list[j]).0) == name)) || ((forall|i: int| 0 <= i < list.len() ==> !(device_text((#[trigger] list[i]).0) == name)) && location_of(list, name) is None),
    decreases list.len(),
{
    if list.len() > 0 {
        if device_text(list[0].0) == name {
            assert(device_text(list[0].0) == name && location_of(list, name) == Some(list[0].1));
        } else {
            let rest = list.skip(1);
            law_a_device_is_found_by_its_name(rest, name);
            assert forall|i: int| 0 <= i < rest.len() implies (#[trigger] rest[i]) == list[i + 1] by {}
            if exists|i: int|
            0 <= i < rest.len() && device_text((#[trigger] rest[i]).0) == name && location_of(rest, name) == Some(rest[i].1) && forall|j: int|
                0 <= j < i ==> !(device_text((#[trigger] rest[j]).0) == name) {
                let i = choose|i: int|
                    0 <= i < rest.len() && device_text((#[trigger] rest[i]).0) == name && location_of(rest, name) == Some(rest[i].1) && forall|j: int|
                        0 <= j < i ==> !(device_text((#[trigger] rest[j]).0) == name);
                assert(device_text(list[i + 1].0) == name && location_of(list, name) == Some(list[i + 1].1));
                assert forall|j: int| 0 <= j < i + 1 implies !(device_text((#[trigger] list[j]).0) == name) by {
                    if j > 0 {
                        assert(!(device_text(rest[j - 1].0) == name));
                    }
                }
            } else {
                assert forall|i: int| 0 <= i < list.len() implies !(device_text((#[trigger] list[i]).0) == name) by {
                    if i > 0 {
                        assert(!(device_text(rest[i - 1].0) == name));
                    }
                }
            }
        }
    }
}


/// A search says how many devices it found.
pub proof fn law_a_search_says_how_many_it_found(n: nat)
    ensures
        found_text(0) == "No cast devices found on this network."@,
        found_text(1) == "1 device found."@,
        n > 1 ==> found_text(n) == dec(n) + " devices found."@,
{
}

/// A device's name is shown without white space around it, and cut where it is too long.
pub proof fn law_a_device_name_is_short(raw: Seq<char>)
    ensures
        device_text(raw).len() <= 41,
        trim(join(telling_parts(words(raw)), " "@)).len() == 0 ==> device_text(raw) == truncated(trim(raw), 40),
        trim(join(telling_parts(words(raw)), " "@)).len() > 0 ==> device_text(raw) == truncated(trim(join(telling_parts(words(raw)), " "@)), 40),
{
    reveal_strlit("…");
}

} // verus!
