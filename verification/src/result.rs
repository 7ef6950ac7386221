//! The result of one hashing operation: the encoded credential, and the
//! optional provenance recorder — a typed store of per-block records keyed
//! by (pass, lane, index). The recorder is purely observational: no
//! computed block value and no tag ever depends on it.
use vstd::prelude::*;

use crate::encoding::{dec_digits, lemma_dec_ascii, push_dec};

verus! {

/// One provenance record: the derived scalar parameters, the resulting
/// hash fragment, and the reference coordinates, all as decimal strings.
pub struct Argon2Value {
    pub first_param: String,
    pub second_param: String,
    pub hash: String,
    pub ref_lane: String,
    pub ref_index: String,
}

impl Argon2Value {
    /// A record with every field empty.
    pub fn empty() -> (r: Argon2Value)
        ensures
            r.first_param@ == Seq::<char>::empty(),
            r.second_param@ == Seq::<char>::empty(),
            r.hash@ == Seq::<char>::empty(),
            r.ref_lane@ == Seq::<char>::empty(),
            r.ref_index@ == Seq::<char>::empty(),
    {
        Argon2Value {
            first_param: String::new(),
            second_param: String::new(),
            hash: String::new(),
            ref_lane: String::new(),
            ref_index: String::new(),
        }
    }
}

impl Clone for Argon2Value {
    /// An exact copy, field by field.
    fn clone(&self) -> (r: Argon2Value)
        ensures
            r == *self,
    {
        Argon2Value {
            first_param: self.first_param.clone(),
            second_param: self.second_param.clone(),
            hash: self.hash.clone(),
            ref_lane: self.ref_lane.clone(),
            ref_index: self.ref_index.clone(),
        }
    }
}

/// One stored entry: a record and the coordinate it belongs to.
pub struct StateEntry {
    pub pass: u32,
    pub lane: u32,
    pub index: u32,
    pub value: Argon2Value,
}

/// The most recent record stored for a coordinate.
pub open spec fn spec_lookup(
    entries: Seq<StateEntry>,
    pass: u32,
    lane: u32,
    index: u32,
) -> Option<Argon2Value>
    decreases entries.len(),
{
    if entries.len() == 0 {
        None
    } else if entries.last().pass == pass && entries.last().lane == lane && entries.last().index
        == index {
        Some(entries.last().value)
    } else {
        spec_lookup(entries.drop_last(), pass, lane, index)
    }
}

/// The provenance recorder: an append-only store of records. When it is
/// not enabled the engine leaves it untouched.
pub struct Argon2State {
    pub enabled: bool,
    pub entries: Vec<StateEntry>,
}

impl Argon2State {
    /// An empty, enabled recorder.
    pub fn new() -> (r: Argon2State)
        ensures
            r.enabled,
            r.entries@.len() == 0,
    {
        Argon2State { enabled: true, entries: Vec::new() }
    }

    /// An empty recorder that the engine will leave untouched.
    pub fn disabled() -> (r: Argon2State)
        ensures
            !r.enabled,
            r.entries@.len() == 0,
    {
        Argon2State { enabled: false, entries: Vec::new() }
    }

    /// Point lookup: the most recent record for a coordinate.
    pub fn get_value(&self, pass: u32, lane: u32, index: u32) -> (r: Option<&Argon2Value>)
        ensures
            match r {
                Some(v) => spec_lookup(self.entries@, pass, lane, index) == Some(*v),
                None => spec_lookup(self.entries@, pass, lane, index) is None,
            },
    {
        let mut i: usize = self.entries.len();
        proof {
            assert(self.entries@.take(i as int) =~= self.entries@);
        }
        while i > 0
            invariant
                i <= self.entries@.len(),
                spec_lookup(self.entries@, pass, lane, index) == spec_lookup(
                    self.entries@.take(i as int),
                    pass,
                    lane,
                    index,
                ),
            decreases i,
        {
            i = i - 1;
            let e = &self.entries[i];
            proof {
                assert(self.entries@.take(i as int + 1).last() == self.entries@[i as int]);
                assert(self.entries@.take(i as int + 1).drop_last() =~= self.entries@.take(
                    i as int,
                ));
            }
            if e.pass == pass && e.lane == lane && e.index == index {
                return Some(&self.entries[i].value);
            }
        }
        proof {
            assert(self.entries@.take(0) =~= Seq::<StateEntry>::empty());
        }
        None
    }

    /// Append a record for a coordinate; it shadows any earlier one there.
    pub fn put(&mut self, pass: u32, lane: u32, index: u32, value: Argon2Value)
        ensures
            final(self).enabled == old(self).enabled,
            final(self).entries@ == old(self).entries@.push(
                StateEntry { pass, lane, index, value },
            ),
    {
        self.entries.push(StateEntry { pass, lane, index, value });
    }

    /// Bulk export: every entry, keyed by its coordinate string
    /// `B^<pass>[<lane>][<index>]`.
    pub fn export(&self) -> (r: Vec<(String, Argon2Value)>)
        ensures
            r@.len() == self.entries@.len(),
            forall|i: int|
                0 <= i < r@.len() ==> (#[trigger] r@[i]).1 == self.entries@[i].value && r@[i].0@
                    == spec_state_key(
                    self.entries@[i].pass,
                    self.entries@[i].lane,
                    self.entries@[i].index,
                ).map_values(|b: u8| b as char),
    {
        let mut out: Vec<(String, Argon2Value)> = Vec::new();
        let mut i: usize = 0;
        while i < self.entries.len()
            invariant
                i <= self.entries@.len(),
                out@.len() == i,
                forall|j: int|
                    0 <= j < i ==> (#[trigger] out@[j]).1 == self.entries@[j].value && out@[j].0@
                        == spec_state_key(
                        self.entries@[j].pass,
                        self.entries@[j].lane,
                        self.entries@[j].index,
                    ).map_values(|b: u8| b as char),
            decreases self.entries@.len() - i,
        {
            let e = &self.entries[i];
            let key = state_key(e.pass, e.lane, e.index);
            let value = e.value.clone();
            out.push((key, value));
            i = i + 1;
        }
        out
    }
}

/// The export key of a coordinate: `B^<pass>[<lane>][<index>]`.
pub open spec fn spec_state_key(pass: u32, lane: u32, index: u32) -> Seq<u8> {
    seq![66u8, 94u8] + dec_digits(pass as int) + seq![91u8] + dec_digits(lane as int) + seq![
        93u8,
        91u8,
    ] + dec_digits(index as int) + seq![93u8]
}

/// The export key of a coordinate, as a string.
pub fn state_key(pass: u32, lane: u32, index: u32) -> (r: String)
    ensures
        r@ == spec_state_key(pass, lane, index).map_values(|b: u8| b as char),
{
    let mut out: Vec<u8> = Vec::new();
    out.push(66);
    out.push(94);
    push_dec(&mut out, pass as u64);
    out.push(91);
    push_dec(&mut out, lane as u64);
    out.push(93);
    out.push(91);
    push_dec(&mut out, index as u64);
    out.push(93);
    proof {
        assert(out@ =~= spec_state_key(pass, lane, index));
        lemma_dec_ascii(pass as int);
        lemma_dec_ascii(lane as int);
        lemma_dec_ascii(index as int);
    }
    let ghost b = out@;
    let s = crate::encoding::ascii_to_string(out);
    proof {
        assert(s@ =~= b.map_values(|x: u8| x as char));
    }
    s
}

/// The result of one hashing operation: the encoded credential and the
/// provenance recorder.
pub struct Argon2Result {
    pub hash: String,
    pub state: Argon2State,
}

impl Argon2Result {
    /// A fresh result with an enabled recorder.
    pub fn new() -> (r: Argon2Result)
        ensures
            r.hash@ == Seq::<char>::empty(),
            r.state.enabled,
            r.state.entries@.len() == 0,
    {
        Argon2Result { hash: String::new(), state: Argon2State::new() }
    }

    /// A fresh result whose recorder is off.
    pub fn without_recorder() -> (r: Argon2Result)
        ensures
            r.hash@ == Seq::<char>::empty(),
            !r.state.enabled,
            r.state.entries@.len() == 0,
    {
        Argon2Result { hash: String::new(), state: Argon2State::disabled() }
    }
}

} // verus!
