//! The three variants of the algorithm: data-dependent, data-independent,
//! and the hybrid that switches from independent to dependent addressing
//! halfway through the first pass.
use vstd::prelude::*;

verus! {

#[derive(Clone, Copy, Debug, PartialEq, Eq, Structural)]
pub enum Variant {
    /// Data-dependent addressing throughout.
    Argon2d,
    /// Data-independent addressing throughout.
    Argon2i,
    /// Data-independent addressing for the first two slices of the first
    /// pass, data-dependent addressing afterwards.
    Argon2id,
}

/// The numeric code of a variant, as it enters the initial digest and the
/// address-generation blocks.
pub open spec fn variant_code(v: Variant) -> u64 {
    match v {
        Variant::Argon2d => 0u64,
        Variant::Argon2i => 1u64,
        Variant::Argon2id => 2u64,
    }
}

/// The lowercase name of a variant, as a byte sequence ("argon2d",
/// "argon2i" or "argon2id").
pub open spec fn variant_name(v: Variant) -> Seq<u8> {
    match v {
        Variant::Argon2d => seq![97u8, 114u8, 103u8, 111u8, 110u8, 50u8, 100u8],
        Variant::Argon2i => seq![97u8, 114u8, 103u8, 111u8, 110u8, 50u8, 105u8],
        Variant::Argon2id => seq![97u8, 114u8, 103u8, 111u8, 110u8, 50u8, 105u8, 100u8],
    }
}

impl Variant {
    /// The numeric code of the variant.
    pub fn as_u64(&self) -> (r: u64)
        ensures
            r == variant_code(*self),
    {
        match *self {
            Variant::Argon2d => 0,
            Variant::Argon2i => 1,
            Variant::Argon2id => 2,
        }
    }

    /// The lowercase name of the variant.
    pub fn as_lowercase_str(&self) -> (r: &'static str)
        ensures
            r@ == variant_name(*self).map_values(|b: u8| b as char),
    {
        proof {
            reveal_strlit("argon2d");
            reveal_strlit("argon2i");
            reveal_strlit("argon2id");
        }
        match *self {
            Variant::Argon2d => {
                let s = "argon2d";
                proof {
                    assert(s@ =~= variant_name(*self).map_values(|b: u8| b as char));
                }
                s
            },
            Variant::Argon2i => {
                let s = "argon2i";
                proof {
                    assert(s@ =~= variant_name(*self).map_values(|b: u8| b as char));
                }
                s
            },
            Variant::Argon2id => {
                let s = "argon2id";
                proof {
                    assert(s@ =~= variant_name(*self).map_values(|b: u8| b as char));
                }
                s
            },
        }
    }

    /// The lowercase name of the variant, as bytes.
    pub fn name_bytes(&self) -> (r: Vec<u8>)
        ensures
            r@ == variant_name(*self),
    {
        let mut out: Vec<u8> = Vec::new();
        out.push(97);
        out.push(114);
        out.push(103);
        out.push(111);
        out.push(110);
        out.push(50);
        match *self {
            Variant::Argon2d => {
                out.push(100);
            },
            Variant::Argon2i => {
                out.push(105);
            },
            Variant::Argon2id => {
                out.push(105);
                out.push(100);
            },
        }
        proof {
            assert(out@ =~= variant_name(*self));
        }
        out
    }
}

impl Default for Variant {
    /// The default variant is the data-independent one.
    fn default() -> (r: Variant)
        ensures
            r == Variant::Argon2i,
    {
        Variant::Argon2i
    }
}

} // verus!
