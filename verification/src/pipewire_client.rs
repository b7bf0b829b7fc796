//! Topology events as the endpoint source reports them.

use std::collections::{HashMap, HashSet};
use vstd::prelude::*;
use vstd::string::{StrSliceExecFns, StringExecFns};
use crate::graph::{PortDirection, PortType};
use crate::text::{contains_text, occurs_in};

verus! {

/// One change in the live topology, consumed in arrival order.
#[derive(Debug, Clone)]
pub enum PipewireEvent {
    NodeAdded {
        id: u32,
        name: String,
        app_name: Option<String>,
        serial: Option<String>,
        object_path: Option<String>,
        device_id: Option<u32>,
    },
    NodeRemoved { id: u32 },
    PortAdded {
        node_id: u32,
        port_id: u32,
        name: String,
        direction: PortDirection,
        port_type: PortType,
    },
    PortRemoved { node_id: u32, port_id: u32 },
    LinkAdded {
        id: u32,
        output_node: u32,
        output_port: u32,
        input_node: u32,
        input_port: u32,
    },
    LinkRemoved { id: u32 },
    DeviceAdded { id: u32, name: String, description: String, api: String },
    DeviceRemoved { id: u32 },
}

/// The value of a decimal digit.
pub open spec fn digit_value(c: char) -> Option<nat> {
    if 48 <= (c as u32) <= 57 {
        Some(((c as u32) - 48) as nat)
    } else {
        None
    }
}

/// The number that the first `upto` characters spell, if all are digits.
pub open spec fn digits_number(s: Seq<char>, upto: int) -> Option<nat>
    decreases upto,
{
    if upto <= 0 {
        Some(0)
    } else {
        match (digits_number(s, upto - 1), digit_value(s[upto - 1])) {
            (Some(n), Some(d)) => Some(n * 10 + d),
            _ => None,
        }
    }
}

/// A text without the plus sign that may lead it.
pub open spec fn unsigned_part(s: Seq<char>) -> Seq<char> {
    if s.len() > 0 && s[0] == '+' {
        s.subrange(1, s.len() as int)
    } else {
        s
    }
}

/// The id that a text spells: decimal digits, at least one, after an
/// optional plus sign, and no larger than an id can be.
pub open spec fn number_of(s: Seq<char>) -> Option<u32> {
    let body = unsigned_part(s);
    if body.len() == 0 {
        None
    } else {
        match digits_number(body, body.len() as int) {
            Some(n) => if n <= u32::MAX {
                Some(n as u32)
            } else {
                None
            },
            None => None,
        }
    }
}

/// Once the digits spell more than an id can hold, more digits do not help.
proof fn lemma_digits_grow(s: Seq<char>, from: int, upto: int)
    requires
        0 <= from <= upto,
        digits_number(s, from) matches Some(n) && n > u32::MAX,
    ensures
        digits_number(s, upto) matches Some(m) ==> m > u32::MAX,
    decreases upto - from,
{
    if from < upto {
        lemma_digits_grow(s, from, upto - 1);
    }
}

/// After a character that is no digit the text spells no number.
proof fn lemma_digits_stop(s: Seq<char>, at: int, upto: int)
    requires
        0 <= at < upto,
        digit_value(s[at]).is_none(),
    ensures
        digits_number(s, upto).is_none(),
    decreases upto - at,
{
    if at + 1 < upto {
        lemma_digits_stop(s, at, upto - 1);
    }
}

/// Reads an id from a text.
pub fn parse_id(text: &str) -> (r: Option<u32>)
    ensures
        r == number_of(text@),
{
    let n: usize = text.unicode_len();
    if n == 0 {
        return None;
    }
    let start: usize = if text.get_char(0) == '+' {
        1
    } else {
        0
    };
    if start == n {
        return None;
    }
    let ghost body = unsigned_part(text@);
    let mut value: u64 = 0;
    let mut i: usize = start;
    while i < n
        invariant
            start <= i <= n,
            n == text@.len(),
            body == unsigned_part(text@),
            body.len() == n - start,
            forall|k: int| 0 <= k < body.len() ==> body[k] == text@[k + start],
            digits_number(body, i - start) == Some(value as nat),
            value <= u32::MAX,
        decreases n - i,
    {
        let u: u32 = text.get_char(i) as u32;
        if u < 48 || u > 57 {
            proof {
                lemma_digits_stop(body, i - start, body.len() as int);
            }
            return None;
        }
        let next: u64 = value * 10 + (u - 48) as u64;
        assert(digits_number(body, i - start + 1) == Some(next as nat));
        if next > u32::MAX as u64 {
            proof {
                lemma_digits_grow(body, i - start + 1, body.len() as int);
            }
            return None;
        }
        value = next;
        i += 1;
    }
    Some(value as u32)
}

/// Whether a text begins with `prefix`.
pub open spec fn begins_with(s: Seq<char>, prefix: Seq<char>) -> bool {
    prefix.len() <= s.len() && s.subrange(0, prefix.len() as int) == prefix
}

/// Tells whether a text begins with `prefix`.
pub fn has_prefix(text: &str, prefix: &str) -> (r: bool)
    ensures
        r == begins_with(text@, prefix@),
{
    let n: usize = prefix.unicode_len();
    if n > text.unicode_len() {
        return false;
    }
    let mut i: usize = 0;
    while i < n
        invariant
            i <= n,
            n == prefix@.len(),
            n <= text@.len(),
            forall|k: int| 0 <= k < i ==> text@[k] == prefix@[k],
        decreases n - i,
    {
        if text.get_char(i) != prefix.get_char(i) {
            assert(text@.subrange(0, n as int)[i as int] != prefix@[i as int]);
            return false;
        }
        i += 1;
    }
    assert(text@.subrange(0, n as int) =~= prefix@);
    true
}

/// The first of three optional texts that is there, else `fallback`.
pub open spec fn first_text(a: Option<&str>, b: Option<&str>, c: Option<&str>, fallback: &str) -> Seq<char> {
    match a {
        Some(s) => s@,
        None => match b {
            Some(s) => s@,
            None => match c {
                Some(s) => s@,
                None => fallback@,
            },
        },
    }
}

/// Picks the first of three optional texts that is there, else `fallback`.
pub fn pick_text(a: Option<&str>, b: Option<&str>, c: Option<&str>, fallback: &str) -> (r: String)
    ensures
        r@ == first_text(a, b, c, fallback),
{
    let chosen: &str = match a {
        Some(s) => s,
        None => match b {
            Some(s) => s,
            None => match c {
                Some(s) => s,
                None => fallback,
            },
        },
    };
    String::from_str(chosen)
}

/// An optional text as an owned text.
pub fn own_text(a: Option<&str>) -> (r: Option<String>)
    ensures
        crate::text::opt_chars(r) == crate::preset::opt_str_chars(a),
{
    match a {
        Some(s) => Some(String::from_str(s)),
        None => None,
    }
}

/// The id that an optional text spells.
pub open spec fn id_of(a: Option<&str>) -> Option<u32> {
    match a {
        Some(s) => number_of(s@),
        None => None,
    }
}

/// Reads an id from an optional text.
pub fn read_id(a: Option<&str>) -> (r: Option<u32>)
    ensures
        r == id_of(a),
{
    match a {
        Some(s) => parse_id(s),
        None => None,
    }
}

/// The id that an optional text spells, or 0.
pub open spec fn id_or_zero(a: Option<&str>) -> u32 {
    match id_of(a) {
        Some(n) => n,
        None => 0,
    }
}

/// The direction that the direction property names: `in` is an input,
/// anything else, or nothing, an output.
pub open spec fn direction_of(direction: Option<&str>) -> PortDirection {
    match direction {
        Some(d) => if d@ == seq!['i', 'n'] {
            PortDirection::Input
        } else {
            PortDirection::Output
        },
        None => PortDirection::Output,
    }
}

/// The media type of a port: by its format where it has one, else video
/// for the ports of a video device, else audio.
pub open spec fn port_type_of(format: Option<&str>, object_path: Option<&str>) -> PortType {
    match format {
        Some(f) => if occurs_in(seq!['m', 'i', 'd', 'i'], f@) {
            PortType::Midi
        } else if occurs_in(seq!['v', 'i', 'd', 'e', 'o'], f@) {
            PortType::Video
        } else {
            PortType::Audio
        },
        None => match object_path {
            Some(p) => if begins_with(p@, seq!['v', '4', 'l', '2', ':']) {
                PortType::Video
            } else {
                PortType::Audio
            },
            None => PortType::Audio,
        },
    }
}

/// Tells the direction of a port from its direction property.
pub fn read_direction(direction: Option<&str>) -> (r: PortDirection)
    ensures
        r == direction_of(direction),
{
    proof {
        reveal_strlit("in");
    }
    match direction {
        Some(d) => {
            let input = String::from_str(d) == String::from_str("in");
            assert("in"@ =~= seq!['i', 'n']);
            if input {
                PortDirection::Input
            } else {
                PortDirection::Output
            }
        },
        None => PortDirection::Output,
    }
}

/// Tells the media type of a port from its format and hardware path.
pub fn read_port_type(format: Option<&str>, object_path: Option<&str>) -> (r: PortType)
    ensures
        r == port_type_of(format, object_path),
{
    proof {
        reveal_strlit("midi");
        reveal_strlit("video");
        reveal_strlit("v4l2:");
        assert("midi"@ =~= seq!['m', 'i', 'd', 'i']);
        assert("video"@ =~= seq!['v', 'i', 'd', 'e', 'o']);
        assert("v4l2:"@ =~= seq!['v', '4', 'l', '2', ':']);
    }
    match format {
        Some(f) => {
            if contains_text(f, "midi") {
                PortType::Midi
            } else if contains_text(f, "video") {
                PortType::Video
            } else {
                PortType::Audio
            }
        },
        None => match object_path {
            Some(p) => {
                if has_prefix(p, "v4l2:") {
                    PortType::Video
                } else {
                    PortType::Audio
                }
            },
            None => PortType::Audio,
        },
    }
}

/// What the registry remembers of the objects it announced, to tell what
/// kind of object an id named when the object goes.
pub struct Registry {
    /// The node of each announced port.
    pub port_to_node: HashMap<u32, u32>,
    pub node_ids: HashSet<u32>,
    pub link_ids: HashSet<u32>,
    pub device_ids: HashSet<u32>,
}

impl Registry {
    /// A registry that has announced nothing.
    pub fn new() -> (r: Self)
        ensures
            r.port_to_node@ == Map::<u32, u32>::empty(),
            r.node_ids@ == Set::<u32>::empty(),
            r.link_ids@ == Set::<u32>::empty(),
            r.device_ids@ == Set::<u32>::empty(),
    {
        Registry {
            port_to_node: HashMap::new(),
            node_ids: HashSet::new(),
            link_ids: HashSet::new(),
            device_ids: HashSet::new(),
        }
    }

    /// Announces a device.
    pub fn device_added(
        &mut self,
        id: u32,
        name: Option<&str>,
        description: Option<&str>,
        nick: Option<&str>,
        api: Option<&str>,
    ) -> (event: PipewireEvent)
        ensures
            final(self).device_ids@ == old(self).device_ids@.insert(id),
            final(self).port_to_node == old(self).port_to_node,
            final(self).node_ids == old(self).node_ids,
            final(self).link_ids == old(self).link_ids,
            event matches PipewireEvent::DeviceAdded { id: i, name: n, description: d, api: a } && i == id && n@
                == first_text(name, None, None, "Unknown") && d@ == first_text(description, nick, name, "Unknown")
                && a@ == first_text(api, None, None, ""),
    {
        broadcast use vstd::std_specs::hash::group_hash_axioms;

        self.device_ids.insert(id);
        PipewireEvent::DeviceAdded {
            id,
            name: pick_text(name, None, None, "Unknown"),
            description: pick_text(description, nick, name, "Unknown"),
            api: pick_text(api, None, None, ""),
        }
    }

    /// Announces a node.
    pub fn node_added(
        &mut self,
        id: u32,
        description: Option<&str>,
        nick: Option<&str>,
        name: Option<&str>,
        app_name: Option<&str>,
        serial: Option<&str>,
        object_path: Option<&str>,
        device_id: Option<&str>,
    ) -> (event: PipewireEvent)
        ensures
            final(self).node_ids@ == old(self).node_ids@.insert(id),
            final(self).port_to_node == old(self).port_to_node,
            final(self).link_ids == old(self).link_ids,
            final(self).device_ids == old(self).device_ids,
            event matches PipewireEvent::NodeAdded {
                id: i,
                name: n,
                app_name: a,
                serial: s,
                object_path: p,
                device_id: d,
            } && i == id && n@ == first_text(description, nick, name, "Unknown") && crate::text::opt_chars(a)
                == crate::preset::opt_str_chars(app_name) && crate::text::opt_chars(s)
                == crate::preset::opt_str_chars(serial) && crate::text::opt_chars(p)
                == crate::preset::opt_str_chars(object_path) && d == id_of(device_id),
    {
        broadcast use vstd::std_specs::hash::group_hash_axioms;

        self.node_ids.insert(id);
        PipewireEvent::NodeAdded {
            id,
            name: pick_text(description, nick, name, "Unknown"),
            app_name: own_text(app_name),
            serial: own_text(serial),
            object_path: own_text(object_path),
            device_id: read_id(device_id),
        }
    }

    /// Announces a port.
    pub fn port_added(
        &mut self,
        id: u32,
        name: Option<&str>,
        node_id: Option<&str>,
        direction: Option<&str>,
        format: Option<&str>,
        object_path: Option<&str>,
    ) -> (event: PipewireEvent)
        ensures
            final(self).port_to_node@ == old(self).port_to_node@.insert(id, id_or_zero(node_id)),
            final(self).node_ids == old(self).node_ids,
            final(self).link_ids == old(self).link_ids,
            final(self).device_ids == old(self).device_ids,
            event matches PipewireEvent::PortAdded { node_id: n, port_id: p, name: t, direction: d, port_type: k }
                && n == id_or_zero(node_id) && p == id && t@ == first_text(name, None, None, "port") && d
                == direction_of(direction) && k == port_type_of(format, object_path),
    {
        broadcast use vstd::std_specs::hash::group_hash_axioms;

        let node: u32 = match read_id(node_id) {
            Some(n) => n,
            None => 0,
        };
        self.port_to_node.insert(id, node);
        PipewireEvent::PortAdded {
            node_id: node,
            port_id: id,
            name: pick_text(name, None, None, "port"),
            direction: read_direction(direction),
            port_type: read_port_type(format, object_path),
        }
    }

    /// Announces a link.
    pub fn link_added(
        &mut self,
        id: u32,
        output_port: Option<&str>,
        input_port: Option<&str>,
        output_node: Option<&str>,
        input_node: Option<&str>,
    ) -> (event: PipewireEvent)
        ensures
            final(self).link_ids@ == old(self).link_ids@.insert(id),
            final(self).port_to_node == old(self).port_to_node,
            final(self).node_ids == old(self).node_ids,
            final(self).device_ids == old(self).device_ids,
            event == (PipewireEvent::LinkAdded {
                id,
                output_node: id_or_zero(output_node),
                output_port: id_or_zero(output_port),
                input_node: id_or_zero(input_node),
                input_port: id_or_zero(input_port),
            }),
    {
        broadcast use vstd::std_specs::hash::group_hash_axioms;

        self.link_ids.insert(id);
        PipewireEvent::LinkAdded {
            id,
            output_node: match read_id(output_node) {
                Some(n) => n,
                None => 0,
            },
            output_port: match read_id(output_port) {
                Some(n) => n,
                None => 0,
            },
            input_node: match read_id(input_node) {
                Some(n) => n,
                None => 0,
            },
            input_port: match read_id(input_port) {
                Some(n) => n,
                None => 0,
            },
        }
    }

    /// The event for an object that goes: a port if the id named a port,
    /// else a node, a link or a device; nothing for an id that was never
    /// announced. The id is forgotten.
    pub fn removed(&mut self, id: u32) -> (event: Option<PipewireEvent>)
        ensures
            old(self).port_to_node@.contains_key(id) ==> event == Some(
                PipewireEvent::PortRemoved { node_id: old(self).port_to_node@[id], port_id: id },
            ) && final(self).port_to_node@ == old(self).port_to_node@.remove(id) && final(self).node_ids == old(
                self,
            ).node_ids && final(self).link_ids == old(self).link_ids && final(self).device_ids == old(
                self,
            ).device_ids,
            !old(self).port_to_node@.contains_key(id) ==> final(self).port_to_node@ == old(self).port_to_node@,
            !old(self).port_to_node@.contains_key(id) && old(self).node_ids@.contains(id) ==> event == Some(
                PipewireEvent::NodeRemoved { id },
            ) && final(self).node_ids@ == old(self).node_ids@.remove(id) && final(self).link_ids == old(
                self,
            ).link_ids && final(self).device_ids == old(self).device_ids,
            !old(self).port_to_node@.contains_key(id) && !old(self).node_ids@.contains(id) ==> final(self).node_ids@
                == old(self).node_ids@,
            !old(self).port_to_node@.contains_key(id) && !old(self).node_ids@.contains(id) && old(
                self,
            ).link_ids@.contains(id) ==> event == Some(PipewireEvent::LinkRemoved { id }) && final(self).link_ids@
                == old(self).link_ids@.remove(id) && final(self).device_ids == old(self).device_ids,
            !old(self).port_to_node@.contains_key(id) && !old(self).node_ids@.contains(id) && !old(
                self,
            ).link_ids@.contains(id) ==> final(self).link_ids@ == old(self).link_ids@ && final(self).device_ids@
                == old(self).device_ids@.remove(id) && event == (if old(self).device_ids@.contains(id) {
                Some(PipewireEvent::DeviceRemoved { id })
            } else {
                None
            }),
    {
        broadcast use vstd::std_specs::hash::group_hash_axioms;

        match self.port_to_node.remove(&id) {
            Some(node_id) => {
                return Some(PipewireEvent::PortRemoved { node_id, port_id: id });
            },
            None => {},
        }
        assert(self.port_to_node@ =~= old(self).port_to_node@);
        if self.node_ids.remove(&id) {
            return Some(PipewireEvent::NodeRemoved { id });
        }
        assert(self.node_ids@ =~= old(self).node_ids@);
        if self.link_ids.remove(&id) {
            return Some(PipewireEvent::LinkRemoved { id });
        }
        assert(self.link_ids@ =~= old(self).link_ids@);
        if self.device_ids.remove(&id) {
            return Some(PipewireEvent::DeviceRemoved { id });
        }
        None
    }
}

/// A profile that a device offers.
#[derive(Debug, Clone)]
pub struct DeviceProfile {
    pub index: u32,
    pub name: String,
    pub description: String,
}

/// The profile that an entry of a device's profile list describes; nothing
/// for the entry with index 0, which switches the device off.
pub fn profile_from(index: Option<u64>, name: Option<&str>, description: Option<&str>) -> (r: Option<DeviceProfile>)
    ensures
        match r {
            Some(p) => index matches Some(i) && (i % 0x1_0000_0000) != 0 && p.index == i % 0x1_0000_0000 && p.name@
                == first_text(name, None, None, "") && p.description@ == first_text(description, None, None, ""),
            None => index matches Some(i) ==> i % 0x1_0000_0000 == 0,
        },
{
    let wide: u64 = match index {
        Some(i) => i,
        None => 0,
    };
    let low: u32 = (wide % 0x1_0000_0000) as u32;
    if low == 0 {
        return None;
    }
    Some(
        DeviceProfile {
            index: low,
            name: pick_text(name, None, None, ""),
            description: pick_text(description, None, None, ""),
        },
    )
}

} // verus!
