//! What holds of the library as a whole.

use vstd::prelude::*;
use vstd::utf8::{
    char_is_scalar, decode_utf8_encode_utf8, encode_utf8, encode_utf8_decode_utf8,
    encode_utf8_valid_utf8,
};

use crate::addr::IpView;
use crate::bytes::{le_i32_at, le_u16_at};
use crate::fetch::{
    action_on, call_of, state_after, FetchAction, FetchEvent, FetchPhase, FetchState,
    SizeRaceCodes, MAX_ATTEMPTS, SIZE_PAD,
};
use crate::forward_table::{rows_entries, ForwardRow};
use crate::names::{before_first, is_surrogate, utf16_text, utf8_text, with_name};
use crate::parse::{
    claims, entry_of, framing_error, message_entries, message_entry, slot, slot_start, stated_len, table, RTAX_DST, RTAX_GATEWAY,
    RTAX_NETMASK, RTF_WASCLONED, RTM_VERSION, RT_MSGHDR_LEN,
};
use crate::route::{ErrorView, RouteView};
use crate::sockaddr::{
    address_offset, carries_scope, leading_ones, lemma_ones_from_bound, mask_bit, mask_octets,
    ones_from, padded_len, sockaddr_address, without_scope,
};

verus! {

/// One whole message and nothing else.
pub open spec fn is_message(message: Seq<u8>) -> bool {
    framing_error(message) is None && stated_len(message) == message.len()
}

/// The table of two dumps in a row is the table of the first, followed by that
/// of the second.
pub proof fn law_tables_concatenate(a: Seq<u8>, b: Seq<u8>)
    requires
        table(a) is Ok,
    ensures
        match table(b) {
            Ok(entries) => table(a + b) == Ok::<Seq<RouteView>, ErrorView>(
                table(a)->Ok_0 + entries,
            ),
            Err(e) => table(a + b) == Err::<Seq<RouteView>, ErrorView>(e),
        },
    decreases a.len(),
{
    if a.len() == 0 {
        assert(a + b =~= b);
        if let Ok(entries) = table(b) {
            assert(table(a)->Ok_0 + entries =~= entries);
        }
    } else {
        let n = stated_len(a);
        assert(framing_error(a) is None);
        assert(stated_len(a + b) == n);
        assert(framing_error(a + b) is None);
        assert((a + b).take(n) =~= a.take(n));
        assert((a + b).skip(n) =~= a.skip(n) + b);
        law_tables_concatenate(a.skip(n), b);
        if let Ok(entries) = table(b) {
            assert(message_entries(a.take(n)) + (table(a.skip(n))->Ok_0 + entries)
                =~= table(a)->Ok_0 + entries);
        }
    }
}

/// A dump that is one whole message has the entries of that message.
pub proof fn lemma_message_table(message: Seq<u8>)
    requires
        is_message(message),
    ensures
        table(message) == Ok::<Seq<RouteView>, ErrorView>(message_entries(message)),
{
    let n = stated_len(message);
    assert(message.take(n) =~= message);
    assert(message.skip(n) =~= Seq::<u8>::empty());
    assert(table(message.skip(n)) == Ok::<Seq<RouteView>, ErrorView>(seq![]));
    assert(message_entries(message) + Seq::<RouteView>::empty() =~= message_entries(message));
}

/// Whatever the addresses of a message hold, it decides on its own entry only:
/// the entries before and after it, and the error of what comes after it if
/// there is one, are as they would be without it.
pub proof fn law_entries_are_independent(before: Seq<u8>, message: Seq<u8>, after: Seq<u8>)
    requires
        table(before) is Ok,
        is_message(message),
    ensures
        match table(after) {
            Ok(entries) => table(before + message + after) == Ok::<Seq<RouteView>, ErrorView>(
                table(before)->Ok_0 + message_entries(message) + entries,
            ),
            Err(e) => table(before + message + after) == Err::<Seq<RouteView>, ErrorView>(e),
        },
{
    lemma_message_table(message);
    law_tables_concatenate(before, message);
    law_tables_concatenate(before + message, after);
}

/// Entries that were cloned for a neighbour might as well not be in the dump.
pub proof fn law_cloned_entries_are_left_out(before: Seq<u8>, message: Seq<u8>, after: Seq<u8>)
    requires
        table(before) is Ok,
        is_message(message),
        le_i32_at(message, 8) as i32 & RTF_WASCLONED != 0,
    ensures
        table(before + message + after) == table(before + after),
{
    lemma_message_table(message);
    law_tables_concatenate(before, message);
    assert(table(before)->Ok_0 + message_entries(message) =~= table(before)->Ok_0);
    law_tables_concatenate(before + message, after);
    law_tables_concatenate(before, after);
}

/// A whole header of another version fails the table, whatever length it states
/// and whatever follows it.
pub proof fn law_unexpected_version_is_an_error(before: Seq<u8>, rest: Seq<u8>)
    requires
        table(before) is Ok,
        RT_MSGHDR_LEN <= rest.len(),
        rest[2] != RTM_VERSION,
    ensures
        table(before + rest) == Err::<Seq<RouteView>, ErrorView>(
            ErrorView::UnexpectedRtmVersion(rest[2]),
        ),
{
    law_tables_concatenate(before, rest);
}

/// A dump that ends within a message is truncated.
pub proof fn law_truncation_is_an_error(before: Seq<u8>, message: Seq<u8>, cut: int)
    requires
        table(before) is Ok,
        is_message(message),
        0 < cut < message.len(),
    ensures
        table(before + message.take(cut)) matches Err(ErrorView::Truncated { .. }),
{
    let part = message.take(cut);
    law_tables_concatenate(before, part);
    if cut >= 2 {
        assert(stated_len(part) == stated_len(message));
    }
}

/// No address of an entry can fail the table: a table fails for its framing
/// alone.
pub proof fn law_addresses_are_never_fatal(buf: Seq<u8>)
    ensures
        table(buf) matches Err(e) ==> !(e is BadAddressFamily),
    decreases buf.len(),
{
    if buf.len() > 0 && framing_error(buf) is None {
        law_addresses_are_never_fatal(buf.skip(stated_len(buf)));
    }
}

/// What every entry of a parsed table is like.
pub open spec fn entry_wf(entry: RouteView) -> bool {
    &&& entry.destination.wf()
    &&& entry.prefix <= 8 * entry.destination.width()
    &&& entry.gateway matches Some(gateway) ==> gateway.wf() && without_scope(gateway) == gateway
    &&& entry.ifindex matches Some(index) && index <= u16::MAX
    &&& entry.ifname is None
    &&& entry.metric is None
}

/// An address that a sockaddr holds has the octets of its family.
proof fn lemma_sockaddr_address_wf(sa: Seq<u8>)
    ensures
        sockaddr_address(sa) matches Ok(Some(ip)) ==> ip.wf(),
{
}

/// Clearing a stored scope touches the third and fourth octet at most, and
/// there is nothing left to clear afterwards.
pub proof fn law_scope_is_cleared_once(ip: IpView)
    requires
        ip.wf(),
    ensures
        without_scope(ip).wf(),
        without_scope(ip).width() == ip.width(),
        without_scope(without_scope(ip)) == without_scope(ip),
        forall|i: int|
            0 <= i < ip.width() && i != 2 && i != 3 ==> without_scope(ip).octets()[i]
                == ip.octets()[i],
        ip is V4 ==> without_scope(ip) == ip,
        ip is V6 && carries_scope(ip.octets()) ==> without_scope(ip).octets()[2] == 0
            && without_scope(ip).octets()[3] == 0,
{
    if let IpView::V6(octets) = ip {
        if carries_scope(octets) {
            let cleared = octets.update(2, 0).update(3, 0);
            assert(carries_scope(cleared));
            assert(cleared.update(2, 0).update(3, 0) =~= cleared);
        }
    }
}

/// Every entry of a parsed table has a destination, a prefix length within its
/// destination, a gateway without a stored scope or none, an interface index,
/// no name yet, and no metric.
pub proof fn law_entries_are_well_formed(buf: Seq<u8>)
    ensures
        table(buf) matches Ok(entries) ==> forall|i: int|
            0 <= i < entries.len() ==> entry_wf(#[trigger] entries[i]),
    decreases buf.len(),
{
    if buf.len() > 0 && framing_error(buf) is None {
        let n = stated_len(buf);
        law_entries_are_well_formed(buf.skip(n));
        lemma_message_entry_wf(buf.take(n));
    }
}

/// The entry of one message is well formed.
proof fn lemma_message_entry_wf(message: Seq<u8>)
    ensures
        message_entry(message) matches Some(entry) ==> entry_wf(entry),
{
    let addrs = le_i32_at(message, 12) as i32;
    let flags = le_i32_at(message, 8) as i32;
    let body = message.skip(RT_MSGHDR_LEN as int);
    if let Some(entry) = message_entry(message) {
        lemma_sockaddr_address_wf(slot(addrs, body, RTAX_DST as nat)->Some_0);
        if let Some(sa) = slot(addrs, body, RTAX_GATEWAY as nat) {
            lemma_sockaddr_address_wf(sa);
            if let Ok(Some(ip)) = sockaddr_address(sa) {
                law_scope_is_cleared_once(ip);
            }
        }
        if let Some(sa) = slot(addrs, body, RTAX_NETMASK as nat) {
            lemma_ones_from_bound(mask_octets(sa, entry.destination), 0);
        }
    }
}

/// A table has no more entries than its dump has room for headers.
pub proof fn law_entries_fit_the_dump(buf: Seq<u8>)
    ensures
        table(buf) matches Ok(entries) ==> entries.len() * RT_MSGHDR_LEN <= buf.len(),
    decreases buf.len(),
{
    if buf.len() > 0 && framing_error(buf) is None {
        law_entries_fit_the_dump(buf.skip(stated_len(buf)));
    }
}

/// An entry depends on the destination, gateway and netmask slots alone: what
/// the address mask claims beyond them does not matter.
pub proof fn law_other_slots_do_not_matter(
    addrs: i32,
    other: i32,
    index: u16,
    flags: i32,
    body: Seq<u8>,
)
    requires
        claims(addrs, RTAX_DST) == claims(other, RTAX_DST),
        claims(addrs, RTAX_GATEWAY) == claims(other, RTAX_GATEWAY),
        claims(addrs, RTAX_NETMASK) == claims(other, RTAX_NETMASK),
    ensures
        entry_of(addrs, index, flags, body) == entry_of(other, index, flags, body),
{
    reveal_with_fuel(slot_start, 4);
}

/// One sockaddr with its padding, as long as its length byte says.
pub open spec fn is_padded_sockaddr(sa: Seq<u8>) -> bool {
    sa.len() > 0 && sa.len() == padded_len(sa[0])
}

/// The sockaddrs of a message are read back in the order of their slots,
/// whatever follows them. The last one need not be padded where the message
/// ends with it.
pub proof fn law_sockaddrs_are_read_in_order(
    addrs: i32,
    dst: Seq<u8>,
    gateway: Seq<u8>,
    mask: Seq<u8>,
    tail: Seq<u8>,
)
    requires
        claims(addrs, RTAX_DST),
        claims(addrs, RTAX_GATEWAY),
        claims(addrs, RTAX_NETMASK),
        is_padded_sockaddr(dst),
        is_padded_sockaddr(gateway),
        is_padded_sockaddr(mask) || (0 < mask.len() <= padded_len(mask[0]) && tail.len() == 0),
    ensures
        ({
            let body = dst + gateway + mask + tail;
            &&& slot(addrs, body, RTAX_DST as nat) == Some(dst)
            &&& slot(addrs, body, RTAX_GATEWAY as nat) == Some(gateway)
            &&& slot(addrs, body, RTAX_NETMASK as nat) == Some(mask)
        }),
{
    let body = dst + gateway + mask + tail;
    reveal_with_fuel(slot_start, 4);
    let second = dst.len() as int;
    let third = second + gateway.len();
    assert(body[0] == dst[0]);
    assert(body[second] == gateway[0]);
    assert(body[third] == mask[0]);
    assert(slot_start(addrs, body, 1) == second);
    assert(slot_start(addrs, body, 2) == third);
    assert(slot_start(addrs, body, 3) == third + mask.len());
    assert(body.subrange(0, second) =~= dst);
    assert(body.subrange(second, third) =~= gateway);
    assert(body.subrange(third, third + mask.len()) =~= mask);
}

/// A `sockaddr_in` of macOS with the given address.
pub open spec fn sockaddr_in(octets: Seq<u8>) -> Seq<u8> {
    seq![16u8, 2u8, 0u8, 0u8] + octets + seq![0u8, 0u8, 0u8, 0u8, 0u8, 0u8, 0u8, 0u8]
}

/// A `sockaddr_in6` of macOS with the given address.
pub open spec fn sockaddr_in6(octets: Seq<u8>) -> Seq<u8> {
    seq![28u8, 30u8, 0u8, 0u8, 0u8, 0u8, 0u8, 0u8] + octets + seq![0u8, 0u8, 0u8, 0u8]
}

/// The sockaddr of macOS that holds `ip`.
pub open spec fn sockaddr_of(ip: IpView) -> Seq<u8> {
    match ip {
        IpView::V4(octets) => sockaddr_in(octets),
        IpView::V6(octets) => sockaddr_in6(octets),
    }
}

/// The address in a `sockaddr_in` or a `sockaddr_in6` is read back as it is.
pub proof fn law_addresses_are_read_back(ip: IpView)
    requires
        ip.wf(),
    ensures
        is_padded_sockaddr(sockaddr_of(ip)),
        sockaddr_address(sockaddr_of(ip)) == Ok::<Option<IpView>, ErrorView>(Some(ip)),
{
    match ip {
        IpView::V4(octets) => {
            assert(sockaddr_in(octets).subrange(4, 8) =~= octets);
        },
        IpView::V6(octets) => {
            assert(sockaddr_in6(octets).subrange(8, 24) =~= octets);
        },
    }
}

/// The first `n` bits of `mask` are ones, and the next one, if there is one, is
/// not.
pub open spec fn has_prefix_len(mask: Seq<u8>, n: nat) -> bool {
    &&& n <= 8 * mask.len()
    &&& forall|k: int| 0 <= k < n ==> #[trigger] mask_bit(mask, k)
    &&& n < 8 * mask.len() ==> !mask_bit(mask, n as int)
}

/// The bits of a run of ones, and the one that ends it.
pub proof fn lemma_ones_from_bits(mask: Seq<u8>, k: int)
    requires
        0 <= k <= 8 * mask.len(),
    ensures
        k + ones_from(mask, k) <= 8 * mask.len(),
        forall|j: int| k <= j < k + ones_from(mask, k) ==> #[trigger] mask_bit(mask, j),
        k + ones_from(mask, k) < 8 * mask.len() ==> !mask_bit(mask, k + ones_from(mask, k)),
    decreases 8 * mask.len() - k,
{
    if k < 8 * mask.len() && mask_bit(mask, k) {
        lemma_ones_from_bits(mask, k + 1);
    }
}

/// A mask has one prefix length: the number of its leading ones.
pub proof fn law_prefix_length_is_unique(mask: Seq<u8>, n: nat)
    ensures
        has_prefix_len(mask, n) <==> n == leading_ones(mask),
{
    lemma_ones_from_bits(mask, 0);
    let m = leading_ones(mask);
    if has_prefix_len(mask, n) {
        if n < m {
            assert(mask_bit(mask, n as int));
        } else if m < n {
            assert(mask_bit(mask, m as int));
        }
    }
}

/// A netmask may leave out trailing zero octets: it stands for the same mask as
/// one that is written out, whatever its family byte and its port say.
pub proof fn law_compressed_mask_is_the_whole_mask(
    sa: Seq<u8>,
    dst: IpView,
    mask: Seq<u8>,
    kept: int,
)
    requires
        mask.len() == dst.width(),
        0 <= kept <= mask.len(),
        forall|i: int| kept <= i < mask.len() ==> mask[i] == 0,
        sa.len() >= address_offset(dst) + kept,
        sa[0] == address_offset(dst) + kept,
        sa.subrange(address_offset(dst), address_offset(dst) + kept) == mask.take(kept),
    ensures
        mask_octets(sa, dst) == mask,
{
    let off = address_offset(dst);
    assert forall|i: int| 0 <= i < mask.len() implies mask_octets(sa, dst)[i] == mask[i] by {
        if i < kept {
            assert(sa.subrange(off, off + kept)[i] == mask.take(kept)[i]);
        }
    }
    assert(mask_octets(sa, dst) =~= mask);
}

/// The netmask sockaddr for a destination of the family of `dst` that keeps the
/// first `kept` octets of `mask`.
pub open spec fn mask_sockaddr(dst: IpView, mask: Seq<u8>, kept: int) -> Seq<u8> {
    let off = address_offset(dst);
    seq![(off + kept) as u8] + Seq::new((off - 1) as nat, |i: int| 0u8) + mask.take(kept)
}

/// A message that states a destination, a gateway and a netmask, the last one
/// perhaps without its trailing zero octets, is read back as the route that it
/// states.
pub proof fn law_routes_are_read_back(
    message: Seq<u8>,
    dst: IpView,
    gateway: IpView,
    mask: Seq<u8>,
    kept: int,
)
    requires
        is_message(message),
        le_i32_at(message, 8) as i32 & RTF_WASCLONED == 0,
        claims(le_i32_at(message, 12) as i32, RTAX_DST),
        claims(le_i32_at(message, 12) as i32, RTAX_GATEWAY),
        claims(le_i32_at(message, 12) as i32, RTAX_NETMASK),
        dst.wf(),
        gateway.wf(),
        mask.len() == dst.width(),
        0 <= kept <= mask.len(),
        forall|i: int| kept <= i < mask.len() ==> mask[i] == 0,
        message.skip(RT_MSGHDR_LEN as int) == sockaddr_of(dst) + sockaddr_of(gateway)
            + mask_sockaddr(dst, mask, kept),
    ensures
        table(message) == Ok::<Seq<RouteView>, ErrorView>(
            seq![
                RouteView {
                    destination: dst,
                    prefix: leading_ones(mask),
                    gateway: Some(without_scope(gateway)),
                    ifindex: Some(le_u16_at(message, 4) as u16 as u32),
                    ifname: None,
                    metric: None,
                },
            ],
        ),
{
    let addrs = le_i32_at(message, 12) as i32;
    let body = message.skip(RT_MSGHDR_LEN as int);
    let off = address_offset(dst);
    let sa = mask_sockaddr(dst, mask, kept);
    lemma_message_table(message);
    law_addresses_are_read_back(dst);
    law_addresses_are_read_back(gateway);
    assert(sockaddr_of(dst) + sockaddr_of(gateway) + sa + Seq::<u8>::empty() =~= body);
    law_sockaddrs_are_read_in_order(
        addrs,
        sockaddr_of(dst),
        sockaddr_of(gateway),
        sa,
        Seq::<u8>::empty(),
    );
    assert(sa.subrange(off, off + kept) =~= mask.take(kept));
    law_compressed_mask_is_the_whole_mask(sa, dst, mask, kept);
}

/// The state of a fetch after a run of events, or none where a call came back
/// with what it cannot come back with.
pub open spec fn state_after_all(events: Seq<FetchEvent>, codes: SizeRaceCodes) -> Option<
    FetchState,
>
    decreases events.len(),
{
    if events.len() == 0 {
        Some(FetchState { attempt: 1, phase: FetchPhase::Sizing })
    } else {
        match state_after_all(events.drop_last(), codes) {
            Some(state) if state.expects(events.last()) => Some(
                state_after(state, events.last(), codes),
            ),
            _ => None,
        }
    }
}

/// A fetch is over after two calls for each of the attempts at most, whatever
/// the calls come back with.
pub proof fn law_fetch_ends(events: Seq<FetchEvent>, codes: SizeRaceCodes)
    ensures
        state_after_all(events, codes) matches Some(state) ==> state.wf() && state.calls_left()
            + events.len() <= 2 * MAX_ATTEMPTS,
    decreases events.len(),
{
    if events.len() > 0 {
        law_fetch_ends(events.drop_last(), codes);
    }
}

/// What is to be done after a run of events.
pub open spec fn action_after_all(events: Seq<FetchEvent>, codes: SizeRaceCodes) -> FetchAction {
    if events.len() == 0 {
        FetchAction::AskSize
    } else {
        action_on(state_after_all(events.drop_last(), codes)->Some_0, events.last(), codes)
    }
}

/// How many times the size was asked for in a run of events.
pub open spec fn sizings(events: Seq<FetchEvent>, codes: SizeRaceCodes) -> nat
    decreases events.len(),
{
    let before = if events.len() == 0 {
        0
    } else {
        sizings(events.drop_last(), codes)
    };
    if action_after_all(events, codes) is AskSize {
        before + 1
    } else {
        before
    }
}

/// The size is asked for three times at most, once for each attempt.
pub proof fn law_fetch_makes_three_attempts_at_most(
    events: Seq<FetchEvent>,
    codes: SizeRaceCodes,
)
    ensures
        state_after_all(events, codes) matches Some(state) ==> sizings(events, codes)
            == state.attempt && sizings(events, codes) <= MAX_ATTEMPTS,
    decreases events.len(),
{
    if events.len() > 0 {
        law_fetch_ends(events.drop_last(), codes);
        law_fetch_ends(events, codes);
        law_fetch_makes_three_attempts_at_most(events.drop_last(), codes);
    }
}

/// Each buffer that is filled has exactly the size that the call just before it
/// reported, and the pad: no size is used twice.
pub proof fn law_each_fill_follows_a_sizing(events: Seq<FetchEvent>, codes: SizeRaceCodes)
    requires
        state_after_all(events, codes) is Some,
        forall|i: int|
            0 <= i < events.len() ==> (#[trigger] events[i] matches FetchEvent::Sized(size) ==> size
                + SIZE_PAD <= usize::MAX),
    ensures
        action_after_all(events, codes) matches FetchAction::Fill(len) ==> {
            &&& events.len() > 0
            &&& events.last() matches FetchEvent::Sized(size) && len == size + SIZE_PAD
            &&& action_after_all(events.drop_last(), codes) is AskSize
        },
{
    if events.len() > 0 {
        assert(events.last() == events[events.len() - 1]);
        let earlier = events.drop_last();
        if earlier.len() > 0 {
            law_fetch_ends(earlier.drop_last(), codes);
            law_fetch_goes_on_until_it_is_over(
                state_after_all(earlier.drop_last(), codes)->Some_0,
                earlier.last(),
                codes,
                events.last(),
            );
        }
    }
}

/// Nothing in a run of events ends the fetch: every sizing succeeds, and every
/// filling fails for want of room.
pub open spec fn is_size_race_run(events: Seq<FetchEvent>, codes: SizeRaceCodes) -> bool {
    forall|i: int|
        0 <= i < events.len() ==> {
            &&& i % 2 == 0 ==> #[trigger] events[i] is Sized
            &&& i % 2 == 1 ==> events[i] == FetchEvent::FillingFailed(Some(codes.enomem))
                || events[i] == FetchEvent::FillingFailed(Some(codes.enobufs))
        }
}

/// Which runs a fetch can go through: sizings and fillings in turn, six of them
/// at most, and nothing after the first event that is neither a size nor a
/// filling that failed for want of room. As long as none was, and fewer than
/// six were seen, the fetch goes on, with a new attempt for every two events.
pub proof fn law_fetch_takes_turns(events: Seq<FetchEvent>, codes: SizeRaceCodes)
    ensures
        events.len() < 6 && is_size_race_run(events, codes) ==> (state_after_all(events, codes)
            matches Some(state) && state.attempt == events.len() / 2 + 1 && (events.len() % 2 == 0
            ==> state.phase is Sizing) && (events.len() % 2 == 1 ==> state.phase is Filling)),
        !(events.len() < 6 && is_size_race_run(events, codes)) ==> {
            &&& state_after_all(events, codes) is Some <==> {
                &&& 0 < events.len() <= 6
                &&& is_size_race_run(events.drop_last(), codes)
                &&& events.len() % 2 == 1 ==> events.last() is Sized || events.last()
                    is SizingFailed
                &&& events.len() % 2 == 0 ==> events.last() is Filled || events.last()
                    is FillingFailed
            }
            &&& state_after_all(events, codes) matches Some(state) ==> state.phase is Over
        },
    decreases events.len(),
{
    if events.len() > 0 {
        let earlier = events.drop_last();
        law_fetch_takes_turns(earlier, codes);
        let n = events.len() as int;
        assert(events.last() == events[n - 1]);
        if is_size_race_run(events, codes) {
            assert forall|i: int| 0 <= i < earlier.len() implies {
                &&& i % 2 == 0 ==> #[trigger] earlier[i] is Sized
                &&& i % 2 == 1 ==> earlier[i] == FetchEvent::FillingFailed(Some(codes.enomem))
                    || earlier[i] == FetchEvent::FillingFailed(Some(codes.enobufs))
            } by {
                assert(earlier[i] == events[i]);
            }
        } else if is_size_race_run(earlier, codes) {
            let last_goes_on = {
                &&& (n - 1) % 2 == 0 ==> events[n - 1] is Sized
                &&& (n - 1) % 2 == 1 ==> events[n - 1] == FetchEvent::FillingFailed(
                    Some(codes.enomem),
                ) || events[n - 1] == FetchEvent::FillingFailed(Some(codes.enobufs))
            };
            if last_goes_on {
                assert forall|i: int| 0 <= i < events.len() implies {
                    &&& i % 2 == 0 ==> #[trigger] events[i] is Sized
                    &&& i % 2 == 1 ==> events[i] == FetchEvent::FillingFailed(Some(codes.enomem))
                        || events[i] == FetchEvent::FillingFailed(Some(codes.enobufs))
                } by {
                    if i < n - 1 {
                        assert(earlier[i] == events[i]);
                    }
                }
            }
        }
    }
}

/// What a fetch does depends on its last event alone, and on whether that was
/// the sixth. A reported size is padded by 2048 bytes and filled. Bytes that
/// were written are kept, all of them and no more. Want of room is tried again
/// unless it was the sixth event, and any other failure is reported.
pub proof fn law_fetch_answers(events: Seq<FetchEvent>, codes: SizeRaceCodes)
    requires
        state_after_all(events, codes) is Some,
        events.len() > 0,
    ensures
        events.last() matches FetchEvent::Sized(size) ==> (size + 2048 <= usize::MAX ==> (
        action_after_all(events, codes) matches FetchAction::Fill(len) && len == size + 2048)),
        events.last() is SizingFailed ==> action_after_all(events, codes) is Report,
        events.last() matches FetchEvent::Filled(len) ==> action_after_all(events, codes)
            == FetchAction::Keep(len),
        events.last() matches FetchEvent::FillingFailed(code) ==> {
            let want_of_room = code == Some(codes.enomem) || code == Some(codes.enobufs);
            &&& !want_of_room ==> action_after_all(events, codes) is Report
            &&& want_of_room && events.len() < 6 ==> action_after_all(events, codes) is AskSize
            &&& want_of_room && events.len() == 6 ==> action_after_all(events, codes) is GiveUp
        },
        events.len() <= 6,
{
    law_fetch_takes_turns(events, codes);
    law_fetch_takes_turns(events.drop_last(), codes);
}

/// A fetch that is kept keeps exactly what was written, on any attempt: it keeps
/// `n` bytes just where the last call wrote `n` bytes.
pub proof fn law_fetch_keeps_what_was_written(
    events: Seq<FetchEvent>,
    codes: SizeRaceCodes,
    n: usize,
)
    requires
        state_after_all(events, codes) is Some,
    ensures
        action_after_all(events, codes) == FetchAction::Keep(n) <==> events.len() > 0
            && events.last() == FetchEvent::Filled(n),
{
    if events.len() > 0 {
        law_fetch_answers(events, codes);
    }
}

/// Every call of a fetch reads the whole routing dump and changes nothing: its
/// name is that of the dump, it has no new value, and it hands over the buffer
/// that was asked for, or none where only the size is.
pub proof fn law_fetch_calls_only_read(action: FetchAction)
    ensures
        call_of(action) is Some <==> action is AskSize || action is Fill,
        call_of(action) matches Some(call) ==> {
            &&& call.name@ == seq![4i32, 17i32, 0i32, 0i32, 7i32, 0i32]
            &&& call.new_len == 0
            &&& action is AskSize ==> call.buffer is None
            &&& action matches FetchAction::Fill(len) ==> call.buffer == Some(len)
        },
{
    if let Some(call) = call_of(action) {
        assert(call.name@ =~= seq![4i32, 17i32, 0i32, 0i32, 7i32, 0i32]);
    }
}

/// A fetch that is over is over for good: it was kept, reported or given up,
/// and expects nothing more. One that is not has a call to make.
pub proof fn law_fetch_goes_on_until_it_is_over(
    state: FetchState,
    event: FetchEvent,
    codes: SizeRaceCodes,
    later: FetchEvent,
)
    requires
        state.wf(),
        state.expects(event),
    ensures
        state_after(state, event, codes).phase is Sizing <==> action_on(state, event, codes)
            is AskSize,
        state_after(state, event, codes).phase is Filling <==> action_on(state, event, codes)
            is Fill,
        state_after(state, event, codes).phase is Over ==> !state_after(
            state,
            event,
            codes,
        ).expects(later),
{
}

/// A name holds no zero, and is what the buffer starts with.
pub proof fn law_names_end_at_the_first_zero<T>(buf: Seq<T>, zero: T)
    ensures
        !before_first(buf, zero).contains(zero),
        before_first(buf, zero).len() <= buf.len(),
        before_first(buf, zero) == buf.take(before_first(buf, zero).len() as int),
        before_first(buf, zero).len() < buf.len() ==> buf[before_first(buf, zero).len() as int]
            == zero,
{
    buf.index_of_first_ensures(zero);
    if buf.index_of_first(zero) is None {
        assert(buf.take(buf.len() as int) =~= buf);
    }
}

/// A text is read back from its UTF-8, and bytes that are the UTF-8 of no text
/// are none.
pub proof fn law_utf8_is_read_back(chars: Seq<char>, bytes: Seq<u8>)
    ensures
        utf8_text(encode_utf8(chars)) == Some(chars),
        utf8_text(bytes) matches Some(text) ==> encode_utf8(text) == bytes,
        utf8_text(bytes) is None ==> encode_utf8(chars) != bytes,
{
    encode_utf8_valid_utf8(chars);
    encode_utf8_decode_utf8(chars);
    if utf8_text(bytes) is Some {
        decode_utf8_encode_utf8(bytes);
    }
}

/// The UTF-16 of one character: itself, or a pair of surrogates for one beyond
/// the first 65536.
pub open spec fn char_units(c: char) -> Seq<u16> {
    let v = c as u32 as int;
    if v < 0x1_0000 {
        seq![v as u16]
    } else {
        seq![(0xd800 + (v - 0x1_0000) / 0x400) as u16, (0xdc00 + (v - 0x1_0000) % 0x400) as u16]
    }
}

/// The UTF-16 of a character, at the front of whatever follows, is read back as
/// that character.
pub proof fn law_utf16_is_read_back(c: char, rest: Seq<u16>)
    ensures
        utf16_text(char_units(c) + rest) == seq![c] + utf16_text(rest),
        utf16_text(seq![]) == Seq::<char>::empty(),
{
    let v = c as u32 as int;
    let units = char_units(c) + rest;
    char_is_scalar(c);
    if v < 0x1_0000 {
        assert(units.skip(1) =~= rest);
    } else {
        assert(units.skip(2) =~= rest);
        assert(units[0] == 0xd800 + (v - 0x1_0000) / 0x400);
        assert(units[1] == 0xdc00 + (v - 0x1_0000) % 0x400);
    }
}

/// A surrogate that is not followed by its other half, or that is the second
/// half without the first, is read as U+FFFD, and what follows it is read on
/// its own.
pub proof fn law_lone_surrogates_are_replaced(unit: u16, rest: Seq<u16>)
    requires
        0xd800 <= unit <= 0xdfff,
        unit >= 0xdc00 || rest.len() == 0 || rest[0] < 0xdc00 || rest[0] > 0xdfff,
    ensures
        utf16_text(seq![unit] + rest) == seq!['\u{fffd}'] + utf16_text(rest),
{
    assert((seq![unit] + rest).skip(1) =~= rest);
}

/// A lookup decides on the name alone. A route with an interface index has the
/// name that was looked up, or none where none was found, whatever else is in
/// it. A route without one stays as it is.
pub proof fn law_naming_sets_the_name_alone(route: RouteView, name: Option<Seq<char>>)
    ensures
        with_name(route, name).destination == route.destination,
        with_name(route, name).prefix == route.prefix,
        with_name(route, name).gateway == route.gateway,
        with_name(route, name).ifindex == route.ifindex,
        with_name(route, name).metric == route.metric,
        route.ifindex is Some ==> with_name(route, name).ifname == name,
        route.ifindex is None ==> with_name(route, name).ifname == route.ifname,
{
}

/// Code units that are characters of their own are read one by one.
pub proof fn law_plain_units_are_characters(units: Seq<u16>)
    requires
        forall|i: int| 0 <= i < units.len() ==> !is_surrogate(units[i]),
    ensures
        utf16_text(units) == units.map_values(|unit: u16| unit as char),
    decreases units.len(),
{
    if units.len() > 0 {
        law_plain_units_are_characters(units.skip(1));
        assert(utf16_text(units) =~= units.map_values(|unit: u16| unit as char));
    }
}

/// The entries of two runs of rows are those of the first, followed by those of
/// the second: a row that stands for no route leaves the others as they are.
pub proof fn law_rows_are_independent(a: Seq<ForwardRow>, b: Seq<ForwardRow>)
    ensures
        rows_entries(a + b) == rows_entries(a) + rows_entries(b),
    decreases b.len(),
{
    if b.len() == 0 {
        assert(a + b =~= a);
        assert(rows_entries(a) + rows_entries(b) =~= rows_entries(a));
    } else {
        assert((a + b).drop_last() =~= a + b.drop_last());
        assert((a + b).last() == b.last());
        law_rows_are_independent(a, b.drop_last());
        assert(rows_entries(a + b) =~= rows_entries(a) + rows_entries(b));
    }
}

} // verus!
