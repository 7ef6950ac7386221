//! Writing provenance records while the fill runs. These functions only
//! observe the fill; nothing they store is ever read back by the engine.
use vstd::prelude::*;

use crate::context::Context;
use crate::encoding::{dec_digits, lemma_dec_ascii, push_dec};
use crate::engine::Position;
use crate::result::{spec_lookup, Argon2Result, Argon2Value, StateEntry};

verus! {

/// The decimal string of a number.
fn dec_string(n: u64) -> (r: String)
    ensures
        r@ == dec_digits(n as int).map_values(|b: u8| b as char),
{
    let mut out: Vec<u8> = Vec::new();
    push_dec(&mut out, n);
    proof {
        assert(out@ =~= dec_digits(n as int));
        lemma_dec_ascii(n as int);
    }
    let ghost b = out@;
    let s = crate::encoding::ascii_to_string(out);
    proof {
        assert(s@ =~= b.map_values(|x: u8| x as char));
    }
    s
}

/// The reference-lane string a record stores: in the very first slice the
/// lane itself (there are no cross-lane references yet), in the first
/// slice of a later pass the steering value, and nothing elsewhere.
pub open spec fn spec_string_ref_lane(
    pass: u32,
    slice: u32,
    lane: u32,
    pseudo_rand: u64,
) -> Option<Seq<u8>> {
    if pass == 0 && slice == 0 {
        Some(dec_digits(lane as int))
    } else if pass > 0 && slice == 0 {
        Some(dec_digits(pseudo_rand as int))
    } else {
        None
    }
}

/// The reference-lane string of one position, if that position gets one.
pub fn get_string_ref_lane(pass: u32, slice: u32, lane: u32, pseudo_rand: u64) -> (r: Option<
    String,
>)
    ensures
        match r {
            Some(s) => spec_string_ref_lane(pass, slice, lane, pseudo_rand) matches Some(d) && s@
                == d.map_values(|b: u8| b as char),
            None => spec_string_ref_lane(pass, slice, lane, pseudo_rand) is None,
        },
{
    if pass == 0 && slice == 0 {
        Some(dec_string(lane as u64))
    } else if pass > 0 && slice == 0 {
        Some(dec_string(pseudo_rand))
    } else {
        None
    }
}

/// Record one block commit: the coordinate's record keeps its other
/// fields and takes the new reference column and reference-lane string.
pub fn write_state_entry(
    state: &mut Argon2Result,
    position: &Position,
    ref_index: u32,
    ref_lane: u64,
    context: &Context,
)
    ensures
        final(state).hash == old(state).hash,
        final(state).state.enabled == old(state).state.enabled,
        final(state).state.entries@.len() == old(state).state.entries@.len() + 1,
        final(state).state.entries@.drop_last() == old(state).state.entries@,
        ({
            let e = final(state).state.entries@.last();
            &&& e.pass == position.pass
            &&& e.lane == position.lane
            &&& e.index == position.index
            &&& e.value.ref_index@ == dec_digits(ref_index as int).map_values(|b: u8| b as char)
            &&& match spec_string_ref_lane(position.pass, position.slice, position.lane, ref_lane) {
                Some(d) => e.value.ref_lane@ == d.map_values(|b: u8| b as char),
                None => e.value.ref_lane@ == Seq::<char>::empty(),
            }
            &&& match spec_lookup(
                old(state).state.entries@,
                position.pass,
                position.lane,
                position.index,
            ) {
                Some(v) => e.value.first_param == v.first_param && e.value.second_param
                    == v.second_param && e.value.hash == v.hash,
                None => e.value.first_param@ == Seq::<char>::empty() && e.value.second_param@
                    == Seq::<char>::empty() && e.value.hash@ == Seq::<char>::empty(),
            }
        }),
{
    let current = match state.state.get_value(position.pass, position.lane, position.index) {
        Some(v) => v.clone(),
        None => Argon2Value::empty(),
    };
    let mut updated = current;
    updated.ref_index = dec_string(ref_index as u64);
    updated.ref_lane = match get_string_ref_lane(
        position.pass,
        position.slice,
        position.lane,
        ref_lane,
    ) {
        Some(s) => s,
        None => String::new(),
    };
    state.state.put(position.pass, position.lane, position.index, updated);
    proof {
        assert(state.state.entries@.drop_last() =~= old(state).state.entries@);
    }
}

} // verus!
