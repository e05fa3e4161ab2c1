//! Interface names, as the systems hand them over.

use vstd::prelude::*;
use vstd::slice::{slice_subrange, slice_to_vec};
use vstd::utf8::{decode_utf8, valid_utf8};

use crate::route::{text_option_view, ParsedRoute, RouteView};

verus! {

/// The part of a buffer before its first `zero`, or all of it where there is
/// none.
pub open spec fn before_first<T>(buf: Seq<T>, zero: T) -> Seq<T> {
    match buf.index_of_first(zero) {
        Some(end) => buf.take(end),
        None => buf,
    }
}

/// The text of `bytes` in UTF-8, or `None` where they are not UTF-8.
pub open spec fn utf8_text(bytes: Seq<u8>) -> Option<Seq<char>> {
    if valid_utf8(bytes) {
        Some(decode_utf8(bytes))
    } else {
        None
    }
}

/// Calls `String::from_utf8`. It gives the text of the bytes where they are
/// valid UTF-8, and an error otherwise, which is dropped here.
#[verifier::external_body]
fn string_from_utf8(bytes: Vec<u8>) -> (text: Option<String>)
    ensures
        text_option_view(text) == utf8_text(bytes@),
{
    String::from_utf8(bytes).ok()
}

/// Reads a name from a zero-terminated buffer of UTF-8. A name that is not
/// UTF-8 is none.
pub fn name_from_utf8(buf: &[u8]) -> (name: Option<String>)
    ensures
        text_option_view(name) == utf8_text(before_first(buf@, 0)),
        forall|end: int|
            0 <= end <= buf@.len() && (forall|i: int| 0 <= i < end ==> buf@[i] != 0) && (end
                < buf@.len() ==> buf@[end] == 0) ==> text_option_view(name) == utf8_text(
                #[trigger] buf@.subrange(0, end),
            ),
{
    let mut end: usize = 0;
    while end < buf.len() && buf[end] != 0
        invariant
            end <= buf@.len(),
            forall|i: int| 0 <= i < end ==> buf@[i] != 0,
        decreases buf@.len() - end,
    {
        end += 1;
    }
    proof {
        lemma_before_first(buf@, 0, end as int);
    }
    string_from_utf8(slice_to_vec(slice_subrange(buf, 0, end)))
}

/// What comes before the first `zero`, once its place is known.
pub proof fn lemma_before_first<T>(buf: Seq<T>, zero: T, end: int)
    requires
        0 <= end <= buf.len(),
        forall|i: int| 0 <= i < end ==> buf[i] != zero,
        end < buf.len() ==> buf[end] == zero,
    ensures
        before_first(buf, zero) == buf.subrange(0, end),
{
    buf.index_of_first_ensures(zero);
    if end < buf.len() {
        assert(buf.contains(zero));
    } else {
        assert(!buf.contains(zero));
        assert(buf =~= buf.subrange(0, end));
    }
}

/// A code unit that is no character of its own.
pub open spec fn is_surrogate(unit: u16) -> bool {
    0xd800 <= unit <= 0xdfff
}

/// Two code units that make up one character.
pub open spec fn is_surrogate_pair(first: u16, second: u16) -> bool {
    0xd800 <= first <= 0xdbff && 0xdc00 <= second <= 0xdfff
}

/// The text of `units` in UTF-16, with the replacement character in place of
/// each surrogate that is not part of a pair.
pub open spec fn utf16_text(units: Seq<u16>) -> Seq<char>
    decreases units.len(),
{
    if units.len() == 0 {
        seq![]
    } else if !is_surrogate(units[0]) {
        seq![units[0] as char] + utf16_text(units.skip(1))
    } else if units.len() >= 2 && is_surrogate_pair(units[0], units[1]) {
        seq![(0x10000 + (units[0] - 0xd800) * 0x400 + (units[1] - 0xdc00)) as char] + utf16_text(
            units.skip(2),
        )
    } else {
        seq!['\u{fffd}'] + utf16_text(units.skip(1))
    }
}

/// `String::from_utf16_lossy` decodes UTF-16 and puts the replacement character
/// U+FFFD in place of each unpaired surrogate.
pub assume_specification[ String::from_utf16_lossy ](v: &[u16]) -> (text: String)
    ensures
        text@ == utf16_text(v@),
;

/// Reads a name from a zero-terminated buffer of UTF-16.
pub fn name_from_utf16(buf: &[u16]) -> (name: String)
    ensures
        name@ == utf16_text(before_first(buf@, 0)),
        forall|end: int|
            0 <= end <= buf@.len() && (forall|i: int| 0 <= i < end ==> buf@[i] != 0) && (end
                < buf@.len() ==> buf@[end] == 0) ==> name@ == utf16_text(
                #[trigger] buf@.subrange(0, end),
            ),
{
    let mut end: usize = 0;
    while end < buf.len() && buf[end] != 0
        invariant
            end <= buf@.len(),
            forall|i: int| 0 <= i < end ==> buf@[i] != 0,
        decreases buf@.len() - end,
    {
        end += 1;
    }
    proof {
        lemma_before_first(buf@, 0, end as int);
    }
    String::from_utf16_lossy(slice_subrange(buf, 0, end))
}

/// A route after a lookup of its interface came back with `name`. A route
/// without an interface index has none to look up.
pub open spec fn with_name(route: RouteView, name: Option<Seq<char>>) -> RouteView {
    if route.ifindex is Some {
        RouteView { ifname: name, ..route }
    } else {
        route
    }
}

/// Puts the names that were looked up, one per route, into the routes.
pub fn name_interfaces(routes: &mut Vec<ParsedRoute>, names: &Vec<Option<String>>)
    requires
        old(routes)@.len() == names@.len(),
    ensures
        final(routes)@.len() == old(routes)@.len(),
        forall|i: int|
            0 <= i < names@.len() ==> {
                let before = old(routes)@[i];
                let after = #[trigger] final(routes)@[i];
                &&& after.destination == before.destination
                &&& after.prefix == before.prefix
                &&& after.gateway == before.gateway
                &&& after.ifindex == before.ifindex
                &&& after.metric == before.metric
                &&& before.ifindex is None ==> after.ifname == before.ifname
                &&& before.ifindex is Some ==> (after.ifname is Some <==> names@[i] is Some)
                &&& before.ifindex is Some && names@[i] is Some ==> after.ifname->Some_0@
                    == names@[i]->Some_0@
            },
        forall|i: int|
            0 <= i < names@.len() ==> (#[trigger] final(routes)@[i])@ == with_name(
                old(routes)@[i]@,
                text_option_view(names@[i]),
            ),
{
    let ghost before = routes@;
    let mut i: usize = 0;
    while i < routes.len()
        invariant
            i <= routes@.len(),
            routes@.len() == names@.len(),
            before.len() == names@.len(),
            forall|j: int|
                0 <= j < i ==> (#[trigger] routes@[j])@ == with_name(
                    before[j]@,
                    text_option_view(names@[j]),
                ),
            forall|j: int|
                0 <= j < i ==> {
                    let after = #[trigger] routes@[j];
                    &&& after.destination == before[j].destination
                    &&& after.prefix == before[j].prefix
                    &&& after.gateway == before[j].gateway
                    &&& after.ifindex == before[j].ifindex
                    &&& after.metric == before[j].metric
                    &&& before[j].ifindex is None ==> after.ifname == before[j].ifname
                    &&& before[j].ifindex is Some ==> (after.ifname is Some <==> names@[j] is Some)
                    &&& before[j].ifindex is Some && names@[j] is Some ==> after.ifname->Some_0@
                        == names@[j]->Some_0@
                },
            forall|j: int| i <= j < names@.len() ==> routes@[j] == before[j],
        decreases routes@.len() - i,
    {
        if routes[i].ifindex.is_some() {
            routes[i].ifname = match &names[i] {
                Some(name) => Some(name.clone()),
                None => None,
            };
        }
        i += 1;
    }
}

} // verus!
