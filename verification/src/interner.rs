//! The string interner of the `lasso` crate, with what is taken for granted
//! about it.

use lasso::{Key, Rodeo, Spur};
use std::collections::hash_map::RandomState;
use vstd::prelude::*;

verus! {

/// `lasso::Rodeo`, the string interner. It is carried through as it is; what
/// the contracts say of one, they say through [`interned`].
#[verifier::external_type_specification]
#[verifier::external_body]
#[verifier::reject_recursive_types(K)]
#[verifier::reject_recursive_types(S)]
pub struct ExRodeo<K, S>(Rodeo<K, S>);

/// `lasso::Spur`, the 32-bit key of a `Rodeo`. It is only named as the key
/// type of the interner: the library holds the index that a key stands for.
#[verifier::external_type_specification]
#[verifier::external_body]
pub struct ExSpur(Spur);

/// The strings that an interner holds, in the order in which they were first
/// interned. The key of a string is its index in this sequence.
pub uninterp spec fn interned(rodeo: Rodeo<Spur, RandomState>) -> Seq<Seq<char>>;

/// The most strings that an interner with 32-bit keys can hold.
pub const MAX_SYMBOLS: usize = 0xFFFF_FFFF;

/// `Rodeo::new` makes an interner that holds no string.
#[verifier::external_body]
pub(crate) fn rodeo_new() -> (rodeo: Rodeo<Spur, RandomState>)
    ensures
        interned(rodeo) == Seq::<Seq<char>>::empty(),
{
    Rodeo::new()
}

/// `Rodeo::get` looks a string up without interning it: it gives the key of
/// `name`, which `Key::into_usize` turns into the string's index, or `None`
/// where `name` was never interned.
#[verifier::external_body]
pub(crate) fn rodeo_get(rodeo: &Rodeo<Spur, RandomState>, name: &str) -> (key: Option<usize>)
    ensures
        match key {
            Some(k) => k < interned(*rodeo).len() && interned(*rodeo)[k as int] == name@,
            None => !interned(*rodeo).contains(name@),
        },
{
    match rodeo.get(name) {
        Some(spur) => Some(spur.into_usize()),
        None => None,
    }
}

/// `Rodeo::get_or_intern` gives the key of `name`, which `Key::into_usize`
/// turns into the string's index. A string that is already held keeps its
/// key and nothing changes; a new one is put at the end. It panics when a
/// new string would need a key beyond the 32 bits of a `Spur`, which
/// `requires` leaves out (and, as any allocation, where memory runs out).
#[verifier::external_body]
pub(crate) fn rodeo_get_or_intern(rodeo: &mut Rodeo<Spur, RandomState>, name: &str) -> (key:
    usize)
    requires
        interned(*old(rodeo)).contains(name@) || interned(*old(rodeo)).len() < MAX_SYMBOLS,
    ensures
        key < interned(*final(rodeo)).len(),
        interned(*final(rodeo))[key as int] == name@,
        interned(*old(rodeo)).contains(name@) ==> interned(*final(rodeo)) == interned(
            *old(rodeo),
        ),
        !interned(*old(rodeo)).contains(name@) ==> interned(*final(rodeo)) == interned(
            *old(rodeo),
        ).push(name@),
{
    rodeo.get_or_intern(name).into_usize()
}

} // verus!
