//! The Soroban host types that the library works with, and what it relies
//! on of them.
//!
//! `Bytes`, `String` and `Vec` of the Soroban SDK are handles to objects that
//! live in the host. Nothing here is proved: each item states what the SDK
//! documents of one of its functions, and the rest of the library is proved
//! from these statements. The host meters every call and ends the contract
//! when its budget is used up, as a program ends when memory runs out; the
//! statements say what a call has done when it returns.

use vstd::prelude::*;
use soroban_sdk::{Address, Bytes, Env, Symbol};

verus! {

#[verifier::external_type_specification]
#[verifier::external_body]
pub struct ExEnv(soroban_sdk::Env);

#[verifier::external_type_specification]
#[verifier::external_body]
pub struct ExBytes(soroban_sdk::Bytes);

#[verifier::external_type_specification]
#[verifier::external_body]
pub struct ExString(soroban_sdk::String);

#[verifier::external_type_specification]
#[verifier::external_body]
#[verifier::reject_recursive_types(T)]
pub struct ExVec<T>(soroban_sdk::Vec<T>);

#[verifier::external_type_specification]
#[verifier::external_body]
pub struct ExAddress(soroban_sdk::Address);

#[verifier::external_type_specification]
#[verifier::external_body]
pub struct ExSymbol(soroban_sdk::Symbol);

#[verifier::external_type_specification]
#[verifier::external_body]
#[verifier::reject_recursive_types(K)]
#[verifier::reject_recursive_types(V)]
pub struct ExMap<K, V>(soroban_sdk::Map<K, V>);

/// The bytes that a `Bytes` holds, in order.
pub uninterp spec fn bytes_seq(b: Bytes) -> Seq<u8>;

/// The bytes that a Soroban `String` holds, in order.
pub uninterp spec fn string_seq(s: soroban_sdk::String) -> Seq<u8>;

/// The contents of the items of a `Vec<Bytes>`, in order.
pub uninterp spec fn parts_seq(v: soroban_sdk::Vec<Bytes>) -> Seq<Seq<u8>>;

/// True iff every item of the `Vec<Bytes>` is a `Bytes` object. The host
/// does not check this when a `Vec` comes in from outside, and reading an
/// item of another type aborts.
pub uninterp spec fn parts_are_bytes(v: soroban_sdk::Vec<Bytes>) -> bool;

/// `Bytes::new`: a new `Bytes` is empty.
pub assume_specification[ Bytes::new ](env: &Env) -> (b: Bytes)
    ensures
        bytes_seq(b) == Seq::<u8>::empty(),
;

/// `Bytes::from_slice`: the new `Bytes` holds the bytes of the slice.
pub assume_specification[ Bytes::from_slice ](env: &Env, items: &[u8]) -> (b: Bytes)
    ensures
        bytes_seq(b) == items@,
;

/// `Clone` for `Bytes`: the clone holds the same bytes.
pub assume_specification[ <Bytes as Clone>::clone ](b: &Bytes) -> (r: Bytes)
    ensures
        bytes_seq(r) == bytes_seq(*b),
;

/// `Bytes::push_back`: the length grows by one and the byte is the last.
pub assume_specification[ Bytes::push_back ](b: &mut Bytes, x: u8)
    ensures
        bytes_seq(*final(b)) == bytes_seq(*old(b)).push(x),
;

/// `Bytes::append`: the bytes of `other` follow those already there.
pub assume_specification[ Bytes::append ](b: &mut Bytes, other: &Bytes)
    ensures
        bytes_seq(*final(b)) == bytes_seq(*old(b)) + bytes_seq(*other),
;

/// `Bytes::len`: the number of bytes.
pub assume_specification[ Bytes::len ](b: &Bytes) -> (n: u32)
    ensures
        n == bytes_seq(*b).len(),
;

/// `Bytes::is_empty`: true iff the length is zero.
pub assume_specification[ Bytes::is_empty ](b: &Bytes) -> (r: bool)
    ensures
        r == (bytes_seq(*b).len() == 0),
;

/// `Bytes::get`: the byte at the position, or `None` out of bounds.
pub assume_specification[ Bytes::get ](b: &Bytes, i: u32) -> (r: Option<u8>)
    ensures
        r == if i < bytes_seq(*b).len() {
            Some(bytes_seq(*b)[i as int])
        } else {
            None
        },
;

/// `String::len`: the number of bytes.
pub assume_specification[ soroban_sdk::String::len ](s: &soroban_sdk::String) -> (n: u32)
    ensures
        n == string_seq(*s).len(),
;

/// `String::copy_into_slice` on the first `len` bytes of `buf`, where `len`
/// is the length of the string: they then hold the string's bytes. The SDK
/// panics on any other length.
#[verifier::external_body]
pub(crate) fn string_copy_into<const N: usize>(s: &soroban_sdk::String, buf: &mut [u8; N], len: usize)
    requires
        len == string_seq(*s).len(),
        len <= N,
    ensures
        final(buf)@.subrange(0, len as int) == string_seq(*s),
{
    s.copy_into_slice(&mut buf[..len]);
}

/// `Vec::new` for a `Vec<Bytes>`: a new `Vec` is empty.
#[verifier::external_body]
pub(crate) fn parts_new(env: &Env) -> (v: soroban_sdk::Vec<Bytes>)
    ensures
        parts_seq(v) == Seq::<Seq<u8>>::empty(),
        parts_are_bytes(v),
{
    soroban_sdk::Vec::new(env)
}

/// `Vec::push_back` on a `Vec<Bytes>`: the length grows by one and the item
/// is the last.
#[verifier::external_body]
pub(crate) fn parts_push(v: &mut soroban_sdk::Vec<Bytes>, item: Bytes)
    ensures
        parts_seq(*final(v)) == parts_seq(*old(v)).push(bytes_seq(item)),
        parts_are_bytes(*old(v)) ==> parts_are_bytes(*final(v)),
{
    v.push_back(item)
}

/// `Vec::len` on a `Vec<Bytes>`: the number of items.
#[verifier::external_body]
pub(crate) fn parts_len(v: &soroban_sdk::Vec<Bytes>) -> (n: u32)
    ensures
        n == parts_seq(*v).len(),
{
    v.len()
}

/// `Vec::get` on a `Vec<Bytes>`: the item at the position, or `None` out of
/// bounds. The SDK panics where the item is no `Bytes`.
#[verifier::external_body]
pub(crate) fn parts_get(v: &soroban_sdk::Vec<Bytes>, i: u32) -> (r: Option<Bytes>)
    requires
        parts_are_bytes(*v),
    ensures
        match r {
            Some(item) => i < parts_seq(*v).len() && bytes_seq(item) == parts_seq(*v)[i as int],
            None => i >= parts_seq(*v).len(),
        },
{
    v.get(i)
}

/// The characters of a `Symbol`. Two symbols are equal to the host iff
/// they have the same characters.
pub uninterp spec fn symbol_name(s: Symbol) -> Seq<u8>;

/// The text form of an `Address`, its strkey. Two addresses are equal to
/// the host iff they have the same text form.
pub uninterp spec fn address_text(a: Address) -> Seq<u8>;

/// The entries of a `Map<Symbol, Address>`: the text of the address under
/// the name of each symbol.
pub uninterp spec fn alias_entries(m: soroban_sdk::Map<Symbol, Address>) -> Map<Seq<u8>, Seq<u8>>;

/// The entries of an empty map.
pub open spec fn no_aliases() -> Map<Seq<u8>, Seq<u8>> {
    Map::empty()
}

/// True iff every value of the `Map<Symbol, Address>` is an address. The
/// host does not check this when a `Map` comes in from outside, and reading
/// a value of another type aborts.
pub uninterp spec fn aliases_are_addresses(m: soroban_sdk::Map<Symbol, Address>) -> bool;

/// `Clone` for `Address`: the clone is the same address.
pub assume_specification[ <Address as Clone>::clone ](a: &Address) -> (r: Address)
    ensures
        address_text(r) == address_text(*a),
;

/// `Map::new` for a `Map<Symbol, Address>`: a new `Map` is empty.
#[verifier::external_body]
pub(crate) fn aliases_new(env: &Env) -> (m: soroban_sdk::Map<Symbol, Address>)
    ensures
        alias_entries(m) == no_aliases(),
        aliases_are_addresses(m),
{
    soroban_sdk::Map::new(env)
}

/// `Map::set` on a `Map<Symbol, Address>`: the key then has the value,
/// whether or not it had one before; the other entries stay.
#[verifier::external_body]
pub(crate) fn aliases_set(m: &mut soroban_sdk::Map<Symbol, Address>, alias: Symbol, address: Address)
    ensures
        alias_entries(*final(m)) == alias_entries(*old(m)).insert(
            symbol_name(alias),
            address_text(address),
        ),
        aliases_are_addresses(*old(m)) ==> aliases_are_addresses(*final(m)),
{
    m.set(alias, address)
}

/// `Map::remove` on a `Map<Symbol, Address>`: the key then has no value;
/// the other entries stay. The result is `None` iff the key had none.
#[verifier::external_body]
pub(crate) fn aliases_remove(m: &mut soroban_sdk::Map<Symbol, Address>, alias: Symbol) -> (r: Option<()>)
    ensures
        alias_entries(*final(m)) == alias_entries(*old(m)).remove(symbol_name(alias)),
        r is Some == alias_entries(*old(m)).contains_key(symbol_name(alias)),
        aliases_are_addresses(*old(m)) ==> aliases_are_addresses(*final(m)),
{
    m.remove(alias)
}

/// `Map::get` on a `Map<Symbol, Address>`: the value of the key, or `None`
/// where it has none. The SDK panics where the value is no address.
#[verifier::external_body]
pub(crate) fn aliases_get(m: &soroban_sdk::Map<Symbol, Address>, alias: Symbol) -> (r: Option<Address>)
    requires
        aliases_are_addresses(*m),
    ensures
        match r {
            Some(address) => alias_entries(*m).contains_key(symbol_name(alias)) && address_text(
                address,
            ) == alias_entries(*m)[symbol_name(alias)],
            None => !alias_entries(*m).contains_key(symbol_name(alias)),
        },
{
    m.get(alias)
}

} // verus!
