//! Persisted settings: node positions and custom names, found again by a
//! key that outlives the session.

use vstd::prelude::*;
use vstd::string::StringExecFns;
use crate::text::{decimal, decimal_text};

verus! {

/// The stable identity of a node, used to find its saved position and name.
#[derive(Debug, Clone)]
pub struct NodeKey {
    pub node_name: String,
    pub app_name: Option<String>,
    pub object_path: Option<String>,
    pub index: Option<u32>,
}

/// A saved position, in thousandths of a unit.
#[derive(Debug, Clone, Copy, PartialEq, Eq, Structural)]
pub struct Position {
    pub x: i64,
    pub y: i64,
}

/// The key without the duplicate index: the hardware path where there is
/// one, else name and application, else the name alone.
pub open spec fn key_base(name: Seq<char>, app: Option<Seq<char>>, path: Option<Seq<char>>) -> Seq<char> {
    match path {
        Some(p) => seq!['p', 'a', 't', 'h', ':'] + p,
        None => match app {
            Some(a) => name + seq!['|'] + a,
            None => name,
        },
    }
}

/// The key with the duplicate index appended where it is not zero.
pub open spec fn key_with_index(base: Seq<char>, index: Option<u32>) -> Seq<char> {
    match index {
        Some(i) => if i > 0 {
            base + seq!['#'] + decimal(i as nat)
        } else {
            base
        },
        None => base,
    }
}

impl NodeKey {
    /// The text under which the node's settings are stored.
    pub open spec fn key_text(self) -> Seq<char> {
        key_with_index(
            key_base(
                self.node_name@,
                match self.app_name {
                    Some(a) => Some(a@),
                    None => None,
                },
                match self.object_path {
                    Some(p) => Some(p@),
                    None => None,
                },
            ),
            self.index,
        )
    }

    /// Derives the storage key: the hardware path if the node has one, else
    /// its name with the application name, else its name alone; a duplicate
    /// index other than 0 is appended after `#`.
    pub fn to_string_key(&self) -> (r: String)
        ensures
            r@ == self.key_text(),
    {
        proof {
            reveal_strlit("path:");
            reveal_strlit("|");
            reveal_strlit("#");
        }
        let mut base: String = match &self.object_path {
            Some(path) => {
                let mut s = String::from_str("path:");
                s.append(path.as_str());
                assert(s@ =~= seq!['p', 'a', 't', 'h', ':'] + path@);
                s
            },
            None => match &self.app_name {
                Some(app) => {
                    let mut s = self.node_name.clone();
                    s.append("|");
                    s.append(app.as_str());
                    assert(s@ =~= self.node_name@ + seq!['|'] + app@);
                    s
                },
                None => self.node_name.clone(),
            },
        };
        match self.index {
            Some(idx) => {
                if idx > 0 {
                    let ghost plain = base@;
                    base.append("#");
                    let digits = decimal_text(idx);
                    base.append(digits.as_str());
                    assert(base@ =~= plain + seq!['#'] + decimal(idx as nat));
                }
            },
            None => {},
        }
        base
    }
}

/// A table from texts to values in which no text occurs twice.
pub struct TextMap<T> {
    entries: Vec<(String, T)>,
}

/// The table that a list of pairs with distinct texts stands for.
pub open spec fn pairs_map<T>(pairs: Seq<(String, T)>) -> Map<Seq<char>, T> {
    Map::new(
        |k: Seq<char>| exists|i: int| 0 <= i < pairs.len() && (#[trigger] pairs[i]).0@ == k,
        |k: Seq<char>| pairs[choose|i: int| 0 <= i < pairs.len() && (#[trigger] pairs[i]).0@ == k].1,
    )
}

/// Whether no text occurs twice in a list of pairs.
pub open spec fn distinct_texts<T>(pairs: Seq<(String, T)>) -> bool {
    forall|i: int, j: int| 0 <= i < j < pairs.len() ==> (#[trigger] pairs[i]).0@ != (#[trigger] pairs[j]).0@
}

impl<T> View for TextMap<T> {
    type V = Map<Seq<char>, T>;

    closed spec fn view(&self) -> Map<Seq<char>, T> {
        pairs_map(self.entries@)
    }
}

impl<T> TextMap<T> {
    #[verifier::type_invariant]
    spec fn well_formed(self) -> bool {
        distinct_texts(self.entries@)
    }

    /// An empty table.
    pub fn new() -> (r: Self)
        ensures
            r@ == Map::<Seq<char>, T>::empty(),
    {
        let r = TextMap { entries: Vec::new() };
        assert(r@ =~= Map::<Seq<char>, T>::empty());
        r
    }

    fn find(&self, key: &String) -> (r: Option<usize>)
        ensures
            match r {
                Some(i) => i < self.entries.len() && self.entries@[i as int].0@ == key@,
                None => forall|j: int| 0 <= j < self.entries.len() ==> (#[trigger] self.entries@[j]).0@ != key@,
            },
    {
        let mut i: usize = 0;
        while i < self.entries.len()
            invariant
                i <= self.entries.len(),
                forall|j: int| 0 <= j < i ==> (#[trigger] self.entries@[j]).0@ != key@,
            decreases self.entries.len() - i,
        {
            if self.entries[i].0 == *key {
                return Some(i);
            }
            i += 1;
        }
        None
    }

    /// The value stored under `key`.
    pub fn get(&self, key: &String) -> (r: Option<&T>)
        ensures
            match r {
                Some(v) => self@.contains_key(key@) && *v == self@[key@],
                None => !self@.contains_key(key@),
            },
    {
        proof {
            use_type_invariant(self);
        }
        match self.find(key) {
            Some(i) => {
                proof {
                    let pairs = self.entries@;
                    let w = choose|w: int| 0 <= w < pairs.len() && (#[trigger] pairs[w]).0@ == key@;
                    assert(w == i);
                }
                Some(&self.entries[i].1)
            },
            None => None,
        }
    }

    /// Stores `value` under `key`, in place of what was stored there.
    pub fn insert(&mut self, key: String, value: T)
        ensures
            final(self)@ == old(self)@.insert(key@, value),
    {
        proof {
            use_type_invariant(&*self);
        }
        let ghost before = self.entries@;
        let found = self.find(&key);
        let mut entries: Vec<(String, T)> = Vec::new();
        core::mem::swap(&mut self.entries, &mut entries);
        match found {
            Some(i) => {
                entries.set(i, (key, value));
                proof {
                    let after = entries@;
                    assert(distinct_texts(after)) by {
                        assert forall|a: int, b: int| 0 <= a < b < after.len() implies (#[trigger] after[a]).0@ != (#[trigger] after[b]).0@ by {
                            assert(after[a].0@ == before[a].0@);
                            assert(after[b].0@ == before[b].0@);
                        }
                    }
                    lemma_pairs_map_set(before, after, i as int, value);
                }
            },
            None => {
                entries.push((key, value));
                proof {
                    let after = entries@;
                    assert(distinct_texts(after)) by {
                        assert forall|a: int, b: int| 0 <= a < b < after.len() implies (#[trigger] after[a]).0@ != (#[trigger] after[b]).0@ by {
                            assert(after[a] == before[a]);
                            if b < before.len() {
                                assert(after[b] == before[b]);
                            }
                        }
                    }
                    lemma_pairs_map_push(before, after, value);
                }
            },
        }
        core::mem::swap(&mut self.entries, &mut entries);
    }

    /// Removes what is stored under `key`.
    pub fn remove(&mut self, key: &String)
        ensures
            final(self)@ == old(self)@.remove(key@),
    {
        proof {
            use_type_invariant(&*self);
        }
        let ghost before = self.entries@;
        let found = self.find(key);
        let mut entries: Vec<(String, T)> = Vec::new();
        core::mem::swap(&mut self.entries, &mut entries);
        match found {
            Some(i) => {
                entries.remove(i);
                proof {
                    let after = entries@;
                    assert(after == before.remove(i as int));
                    assert(distinct_texts(after)) by {
                        assert forall|a: int, b: int| 0 <= a < b < after.len() implies (#[trigger] after[a]).0@ != (#[trigger] after[b]).0@ by {
                            let a0 = if a < i { a } else { a + 1 };
                            let b0 = if b < i { b } else { b + 1 };
                            assert(after[a] == before[a0]);
                            assert(after[b] == before[b0]);
                        }
                    }
                    lemma_pairs_map_remove(before, after, i as int);
                }
            },
            None => {
                assert(pairs_map(before) =~= pairs_map(before).remove(key@));
            },
        }
        core::mem::swap(&mut self.entries, &mut entries);
    }

    /// The pairs of the table, in the order in which the texts came.
    pub fn entries(&self) -> (r: &Vec<(String, T)>)
        ensures
            pairs_map(r@) == self@,
            distinct_texts(r@),
    {
        proof {
            use_type_invariant(self);
        }
        &self.entries
    }
}

proof fn lemma_pairs_map_set<T>(before: Seq<(String, T)>, after: Seq<(String, T)>, i: int, value: T)
    requires
        distinct_texts(before),
        distinct_texts(after),
        0 <= i < before.len(),
        after.len() == before.len(),
        after[i].0@ == before[i].0@,
        after[i].1 == value,
        forall|j: int| 0 <= j < before.len() && j != i ==> after[j] == before[j],
    ensures
        pairs_map(after) == pairs_map(before).insert(before[i].0@, value),
{
    let key = before[i].0@;
    let want = pairs_map(before).insert(key, value);
    assert forall|k: Seq<char>| pairs_map(after).dom().contains(k) <==> want.dom().contains(k) by {
        if pairs_map(after).dom().contains(k) {
            let w = choose|w: int| 0 <= w < after.len() && (#[trigger] after[w]).0@ == k;
            assert(before[w].0@ == k);
        }
        if pairs_map(before).dom().contains(k) {
            let w = choose|w: int| 0 <= w < before.len() && (#[trigger] before[w]).0@ == k;
            assert(after[w].0@ == k);
        }
        if k == key {
            assert(after[i].0@ == k);
        }
    }
    assert forall|k: Seq<char>| pairs_map(after).dom().contains(k) implies pairs_map(after)[k] == want[k] by {
        let w = choose|w: int| 0 <= w < after.len() && (#[trigger] after[w]).0@ == k;
        if k == key {
            if w != i {
                assert(after[w].0@ == after[i].0@);
            }
        } else {
            let v = choose|v: int| 0 <= v < before.len() && (#[trigger] before[v]).0@ == k;
            assert(before[w].0@ == k);
            if v != w {
                assert(before[v].0@ == before[w].0@);
            }
        }
    }
    assert(pairs_map(after) =~= want);
}

proof fn lemma_pairs_map_push<T>(before: Seq<(String, T)>, after: Seq<(String, T)>, value: T)
    requires
        distinct_texts(after),
        after.len() == before.len() + 1,
        after.last().1 == value,
        forall|j: int| 0 <= j < before.len() ==> after[j] == before[j],
    ensures
        pairs_map(after) == pairs_map(before).insert(after.last().0@, value),
{
    let key = after.last().0@;
    let last = before.len() as int;
    let want = pairs_map(before).insert(key, value);
    assert forall|k: Seq<char>| pairs_map(after).dom().contains(k) <==> want.dom().contains(k) by {
        if pairs_map(after).dom().contains(k) {
            let w = choose|w: int| 0 <= w < after.len() && (#[trigger] after[w]).0@ == k;
            if w < last {
                assert(before[w].0@ == k);
            }
        }
        if pairs_map(before).dom().contains(k) {
            let w = choose|w: int| 0 <= w < before.len() && (#[trigger] before[w]).0@ == k;
            assert(after[w].0@ == k);
        }
        if k == key {
            assert(after[last].0@ == k);
        }
    }
    assert forall|k: Seq<char>| pairs_map(after).dom().contains(k) implies pairs_map(after)[k] == want[k] by {
        let w = choose|w: int| 0 <= w < after.len() && (#[trigger] after[w]).0@ == k;
        if k == key {
            if w != last {
                assert(after[w].0@ == after[last].0@);
            }
        } else {
            let v = choose|v: int| 0 <= v < before.len() && (#[trigger] before[v]).0@ == k;
            assert(after[v].0@ == k);
            if v != w {
                assert(after[v].0@ == after[w].0@);
            }
        }
    }
    assert(pairs_map(after) =~= want);
}

proof fn lemma_pairs_map_remove<T>(before: Seq<(String, T)>, after: Seq<(String, T)>, i: int)
    requires
        distinct_texts(before),
        distinct_texts(after),
        0 <= i < before.len(),
        after == before.remove(i),
    ensures
        pairs_map(after) == pairs_map(before).remove(before[i].0@),
{
    let key = before[i].0@;
    let want = pairs_map(before).remove(key);
    assert forall|k: Seq<char>| pairs_map(after).dom().contains(k) <==> want.dom().contains(k) by {
        if pairs_map(after).dom().contains(k) {
            let w = choose|w: int| 0 <= w < after.len() && (#[trigger] after[w]).0@ == k;
            let w0 = if w < i { w } else { w + 1 };
            assert(before[w0].0@ == k);
            if k == key {
                assert(before[w0].0@ == before[i].0@);
            }
        }
        if want.dom().contains(k) {
            let w = choose|w: int| 0 <= w < before.len() && (#[trigger] before[w]).0@ == k;
            let w1 = if w < i { w } else { w - 1 };
            assert(after[w1].0@ == k);
        }
    }
    assert forall|k: Seq<char>| pairs_map(after).dom().contains(k) implies pairs_map(after)[k] == want[k] by {
        let w = choose|w: int| 0 <= w < after.len() && (#[trigger] after[w]).0@ == k;
        let w0 = if w < i { w } else { w + 1 };
        let v = choose|v: int| 0 <= v < before.len() && (#[trigger] before[v]).0@ == k;
        assert(before[w0].0@ == k);
        if v != w0 {
            assert(before[v].0@ == before[w0].0@);
        }
    }
    assert(pairs_map(after) =~= want);
}

/// The settings that outlive a session. Writing them out is left to the
/// caller, after every change.
pub struct Config {
    /// Saved node positions, by node key.
    pub positions: TextMap<Position>,
    /// Custom display names of nodes, by node key.
    pub node_renames: TextMap<String>,
    /// Path of the preset that was loaded last.
    pub last_preset: Option<String>,
    pub exclusive_mode: bool,
    /// Whether new connections are pinned.
    pub auto_pin: bool,
    pub alsa_midi_enabled: bool,
    /// Profile index used last, by device name.
    pub device_profiles: TextMap<u32>,
    /// Saved positions of device placeholders, by device name.
    pub device_positions: TextMap<Position>,
}

impl Default for Config {
    fn default() -> (r: Self)
        ensures
            r.saved_positions() == Map::<Seq<char>, Position>::empty(),
            r.node_renames@ == Map::<Seq<char>, String>::empty(),
            r.last_preset.is_none(),
            !r.exclusive_mode,
            !r.auto_pin,
            !r.alsa_midi_enabled,
            r.device_profiles@ == Map::<Seq<char>, u32>::empty(),
            r.device_positions@ == Map::<Seq<char>, Position>::empty(),
    {
        Config {
            positions: TextMap::new(),
            node_renames: TextMap::new(),
            last_preset: None,
            exclusive_mode: false,
            auto_pin: false,
            alsa_midi_enabled: false,
            device_profiles: TextMap::new(),
            device_positions: TextMap::new(),
        }
    }
}

/// What a table holds under a key, if anything.
pub open spec fn lookup<T>(table: Map<Seq<char>, T>, key: Seq<char>) -> Option<T> {
    if table.contains_key(key) {
        Some(table[key])
    } else {
        None
    }
}

impl Config {
    /// The saved node positions, by node key.
    pub open spec fn saved_positions(&self) -> Map<Seq<char>, Position> {
        self.positions@
    }

    /// Settings with the given node positions and nothing else.
    pub fn with_positions(positions: TextMap<Position>) -> (r: Self)
        ensures
            r.saved_positions() == positions@,
            r.node_renames@ == Map::<Seq<char>, String>::empty(),
            r.last_preset.is_none(),
            !r.exclusive_mode,
            !r.auto_pin,
            !r.alsa_midi_enabled,
            r.device_profiles@ == Map::<Seq<char>, u32>::empty(),
            r.device_positions@ == Map::<Seq<char>, Position>::empty(),
    {
        Config {
            positions,
            node_renames: TextMap::new(),
            last_preset: None,
            exclusive_mode: false,
            auto_pin: false,
            alsa_midi_enabled: false,
            device_profiles: TextMap::new(),
            device_positions: TextMap::new(),
        }
    }

    /// The saved position of a node.
    pub fn get_position(&self, key: &NodeKey) -> (r: Option<Position>)
        ensures
            r == lookup(self.saved_positions(), key.key_text()),
    {
        let text = key.to_string_key();
        match self.positions.get(&text) {
            Some(p) => Some(*p),
            None => None,
        }
    }

    /// Saves the position of a node.
    pub fn set_position(&mut self, key: NodeKey, pos: Position)
        ensures
            final(self).saved_positions() == old(self).saved_positions().insert(key.key_text(), pos),
            final(self).node_renames == old(self).node_renames,
            final(self).last_preset == old(self).last_preset,
            final(self).exclusive_mode == old(self).exclusive_mode,
            final(self).auto_pin == old(self).auto_pin,
            final(self).alsa_midi_enabled == old(self).alsa_midi_enabled,
            final(self).device_profiles == old(self).device_profiles,
            final(self).device_positions == old(self).device_positions,
    {
        let text = key.to_string_key();
        self.positions.insert(text, pos);
    }

    /// The custom name of a node.
    pub fn get_node_rename(&self, key: &NodeKey) -> (r: Option<&String>)
        ensures
            match r {
                Some(name) => lookup(self.node_renames@, key.key_text()) == Some(*name),
                None => lookup(self.node_renames@, key.key_text()).is_none(),
            },
    {
        let text = key.to_string_key();
        self.node_renames.get(&text)
    }

    /// Gives a node a custom name.
    pub fn set_node_rename(&mut self, key: NodeKey, name: String)
        ensures
            final(self).node_renames@ == old(self).node_renames@.insert(key.key_text(), name),
            final(self).saved_positions() == old(self).saved_positions(),
            final(self).last_preset == old(self).last_preset,
            final(self).exclusive_mode == old(self).exclusive_mode,
            final(self).auto_pin == old(self).auto_pin,
            final(self).alsa_midi_enabled == old(self).alsa_midi_enabled,
            final(self).device_profiles == old(self).device_profiles,
            final(self).device_positions == old(self).device_positions,
    {
        let text = key.to_string_key();
        self.node_renames.insert(text, name);
    }

    /// Takes the custom name of a node away.
    pub fn clear_node_rename(&mut self, key: &NodeKey)
        ensures
            final(self).node_renames@ == old(self).node_renames@.remove(key.key_text()),
            final(self).saved_positions() == old(self).saved_positions(),
            final(self).last_preset == old(self).last_preset,
            final(self).exclusive_mode == old(self).exclusive_mode,
            final(self).auto_pin == old(self).auto_pin,
            final(self).alsa_midi_enabled == old(self).alsa_midi_enabled,
            final(self).device_profiles == old(self).device_profiles,
            final(self).device_positions == old(self).device_positions,
    {
        let text = key.to_string_key();
        self.node_renames.remove(&text);
    }

    /// The profile index that a device used last.
    pub fn get_device_profile(&self, device_name: &str) -> (r: Option<u32>)
        ensures
            r == lookup(self.device_profiles@, device_name@),
    {
        let text = String::from_str(device_name);
        match self.device_profiles.get(&text) {
            Some(p) => Some(*p),
            None => None,
        }
    }

    /// Remembers the profile index of a device.
    pub fn set_device_profile(&mut self, device_name: String, profile_index: u32)
        ensures
            final(self).device_profiles@ == old(self).device_profiles@.insert(device_name@, profile_index),
            final(self).saved_positions() == old(self).saved_positions(),
            final(self).node_renames == old(self).node_renames,
            final(self).last_preset == old(self).last_preset,
            final(self).exclusive_mode == old(self).exclusive_mode,
            final(self).auto_pin == old(self).auto_pin,
            final(self).alsa_midi_enabled == old(self).alsa_midi_enabled,
            final(self).device_positions == old(self).device_positions,
    {
        self.device_profiles.insert(device_name, profile_index);
    }

    /// The saved position of a device placeholder.
    pub fn get_device_position(&self, device_name: &str) -> (r: Option<Position>)
        ensures
            r == lookup(self.device_positions@, device_name@),
    {
        let text = String::from_str(device_name);
        match self.device_positions.get(&text) {
            Some(p) => Some(*p),
            None => None,
        }
    }

    /// Saves the position of a device placeholder.
    pub fn set_device_position(&mut self, device_name: String, pos: Position)
        ensures
            final(self).device_positions@ == old(self).device_positions@.insert(device_name@, pos),
            final(self).saved_positions() == old(self).saved_positions(),
            final(self).node_renames == old(self).node_renames,
            final(self).last_preset == old(self).last_preset,
            final(self).exclusive_mode == old(self).exclusive_mode,
            final(self).auto_pin == old(self).auto_pin,
            final(self).alsa_midi_enabled == old(self).alsa_midi_enabled,
            final(self).device_profiles == old(self).device_profiles,
    {
        self.device_positions.insert(device_name, pos);
    }
}

} // verus!
