//! A picture in text of the transfers in a batch of events.

use crate::fixed::Fixed;
use crate::simulator::event::{events_view, port_view, Event, EventPayload, EventView, PayloadView};
use crate::utils::errors::{integer_text, integer_to_string};
use vstd::prelude::*;
use vstd::string::StrSliceExecFns;
use vstd::string::StringExecFns;

verus! {

/// One transfer between two ports, and whether it went through.
pub struct Transfer {
    pub source_id: String,
    pub source_port: String,
    pub target_id: String,
    pub target_port: String,
    pub amount: Fixed,
    pub success: bool,
}

/// The mathematical value of a `Transfer`.
pub struct TransferView {
    pub source_id: Seq<char>,
    pub source_port: Seq<char>,
    pub target_id: Seq<char>,
    pub target_port: Seq<char>,
    pub amount: int,
    pub success: bool,
}

impl View for Transfer {
    type V = TransferView;

    open spec fn view(&self) -> TransferView {
        TransferView {
            source_id: self.source_id@,
            source_port: self.source_port@,
            target_id: self.target_id@,
            target_port: self.target_port@,
            amount: self.amount@,
            success: self.success,
        }
    }
}

/// The views of a sequence of transfers, in order.
pub open spec fn transfers_view(transfers: Seq<Transfer>) -> Seq<TransferView> {
    Seq::new(transfers.len(), |i: int| transfers[i]@)
}

/// An amount in hundredths, rounded to the nearest, halves upwards.
pub open spec fn hundredths(raw: int) -> int {
    (raw + 5_000_000) / 10_000_000
}

/// The text of a digit.
pub open spec fn digit_text(digit: int) -> Seq<char> {
    if digit == 0 {
        "0"@
    } else if digit == 1 {
        "1"@
    } else if digit == 2 {
        "2"@
    } else if digit == 3 {
        "3"@
    } else if digit == 4 {
        "4"@
    } else if digit == 5 {
        "5"@
    } else if digit == 6 {
        "6"@
    } else if digit == 7 {
        "7"@
    } else if digit == 8 {
        "8"@
    } else {
        "9"@
    }
}

/// A number of hundredths written with two decimals.
pub open spec fn hundredths_text(h: int) -> Seq<char> {
    let size = if h < 0 {
        -h
    } else {
        h
    };
    let sign = if h < 0 {
        "-"@
    } else {
        ""@
    };
    sign + integer_text(size / 100) + "."@ + digit_text((size % 100) / 10) + digit_text(size % 10)
}

/// An amount written with two decimals.
pub open spec fn amount_text(raw: int) -> Seq<char> {
    hundredths_text(hundredths(raw))
}

/// Whether two transfers are between the same ports and of amounts that
/// read the same: a later one of them then tells how an earlier one ended.
pub open spec fn same_transfer(a: TransferView, b: TransferView) -> bool {
    &&& a.source_id == b.source_id
    &&& a.source_port == b.source_port
    &&& a.target_id == b.target_id
    &&& a.target_port == b.target_port
    &&& hundredths(a.amount) == hundredths(b.amount)
}

/// The mark of a transfer that went through, and of one that did not.
pub open spec fn mark(success: bool) -> Seq<char> {
    if success {
        "→"@
    } else {
        "✗"@
    }
}

/// The name of a port, with a star for a port that has no name.
pub open spec fn port_text(port: Seq<char>) -> Seq<char> {
    if port.len() == 0 {
        "*"@
    } else {
        port
    }
}

/// The line that tells of one transfer.
pub open spec fn transfer_line(t: TransferView) -> Seq<char> {
    t.source_id + "."@ + port_text(t.source_port) + " "@ + mark(t.success) + " "@ + t.target_id
        + "."@ + port_text(t.target_port) + " ("@ + amount_text(t.amount) + " units)\n"@
}

/// The text of a digit.
fn digit(d: i64) -> (r: &'static str)
    requires
        0 <= d <= 9,
    ensures
        r@ == digit_text(d as int),
{
    if d == 0 {
        "0"
    } else if d == 1 {
        "1"
    } else if d == 2 {
        "2"
    } else if d == 3 {
        "3"
    } else if d == 4 {
        "4"
    } else if d == 5 {
        "5"
    } else if d == 6 {
        "6"
    } else if d == 7 {
        "7"
    } else if d == 8 {
        "8"
    } else {
        "9"
    }
}

/// An amount in hundredths.
pub fn to_hundredths(amount: Fixed) -> (r: i64)
    ensures
        r == hundredths(amount@),
{
    let raw = amount.raw();
    let whole = raw / 10_000_000;
    let rest = raw % 10_000_000;
    if rest >= 5_000_000 {
        whole + 1
    } else if rest < -5_000_000 {
        whole - 1
    } else {
        whole
    }
}

/// An amount written with two decimals.
pub fn write_amount(amount: Fixed) -> (r: String)
    ensures
        r@ == amount_text(amount@),
{
    let h = to_hundredths(amount);
    let size = if h < 0 {
        -h
    } else {
        h
    };
    let sign = if h < 0 {
        "-"
    } else {
        ""
    };
    let whole = integer_to_string(size / 100);
    String::from_str(sign).concat(whole.as_str()).concat(".").concat(digit((size % 100) / 10)).concat(
        digit(size % 10),
    )
}

/// The line that tells of one transfer.
pub fn write_transfer(t: &Transfer) -> (r: String)
    ensures
        r@ == transfer_line(t@),
{
    let amount = write_amount(t.amount);
    let source_port = if t.source_port.as_str().unicode_len() == 0 {
        "*"
    } else {
        t.source_port.as_str()
    };
    let target_port = if t.target_port.as_str().unicode_len() == 0 {
        "*"
    } else {
        t.target_port.as_str()
    };
    let mark = if t.success {
        "→"
    } else {
        "✗"
    };
    String::from_str(t.source_id.as_str()).concat(".").concat(source_port).concat(" ").concat(
        mark,
    ).concat(" ").concat(t.target_id.as_str()).concat(".").concat(target_port).concat(" (").concat(
        amount.as_str(),
    ).concat(" units)\n")
}

/// Whether the text `a` comes before the text `b` in the order of the
/// standard library: by their bytes, the shorter of two that agree first.
pub uninterp spec fn text_precedes(a: Seq<char>, b: Seq<char>) -> bool;

/// Compares two texts with `<` of `str`, the lexicographic order on their
/// bytes. The contract only names the outcome.
#[verifier::external_body]
fn text_before(a: &str, b: &str) -> (r: bool)
    ensures
        r == text_precedes(a@, b@),
{
    a < b
}

/// The name held in an optional port, the empty name for none.
pub open spec fn port_or_empty(port: Option<Seq<char>>) -> Seq<char> {
    match port {
        Some(p) => p,
        None => Seq::empty(),
    }
}

/// The transfer that an event tells of, if it tells of any: an offer tells
/// of a transfer that has not gone through; an acceptance, coming back from
/// the receiver, of one that has; a rejection of one that has not.
pub open spec fn transfer_of(event: EventView) -> Option<TransferView> {
    match event.payload {
        PayloadView::Resource(amount) => Some(
            TransferView {
                source_id: event.source_id,
                source_port: port_or_empty(event.source_port),
                target_id: event.target_id,
                target_port: port_or_empty(event.target_port),
                amount,
                success: false,
            },
        ),
        PayloadView::ResourceAccepted(amount) => Some(
            TransferView {
                source_id: event.target_id,
                source_port: port_or_empty(event.target_port),
                target_id: event.source_id,
                target_port: port_or_empty(event.source_port),
                amount,
                success: true,
            },
        ),
        PayloadView::ResourceRejected(amount) => Some(
            TransferView {
                source_id: event.target_id,
                source_port: port_or_empty(event.target_port),
                target_id: event.source_id,
                target_port: port_or_empty(event.source_port),
                amount,
                success: false,
            },
        ),
        _ => None,
    }
}

/// The position of the first transfer that is the same as `t`, or the
/// length of the list where there is none.
pub open spec fn first_same(list: Seq<TransferView>, t: TransferView) -> int
    decreases list.len(),
{
    if list.len() == 0 {
        0
    } else if same_transfer(list[0], t) {
        0
    } else {
        1 + first_same(list.drop_first(), t)
    }
}

/// The list with `t` noted: in the place of the first transfer that is the
/// same, or behind all others.
pub open spec fn noted(list: Seq<TransferView>, t: TransferView) -> Seq<TransferView> {
    if first_same(list, t) < list.len() {
        list.update(first_same(list, t), t)
    } else {
        list.push(t)
    }
}

/// The transfers that a batch of events tells of, each as the last event
/// about it leaves it.
pub open spec fn transfers_of(events: Seq<EventView>) -> Seq<TransferView>
    decreases events.len(),
{
    if events.len() == 0 {
        Seq::empty()
    } else {
        match transfer_of(events.last()) {
            Some(t) => noted(transfers_of(events.drop_last()), t),
            None => transfers_of(events.drop_last()),
        }
    }
}

/// `sorted` with `t` put behind the last transfer whose source does not
/// come after that of `t`.
pub open spec fn insert_by_source(sorted: Seq<TransferView>, t: TransferView) -> Seq<TransferView>
    decreases sorted.len(),
{
    if sorted.len() == 0 {
        seq![t]
    } else if text_precedes(t.source_id, sorted.last().source_id) {
        insert_by_source(sorted.drop_last(), t).push(sorted.last())
    } else {
        sorted.push(t)
    }
}

/// The transfers in the order of their sources, and otherwise as they
/// came.
pub open spec fn by_source(list: Seq<TransferView>) -> Seq<TransferView>
    decreases list.len(),
{
    if list.len() == 0 {
        Seq::empty()
    } else {
        insert_by_source(by_source(list.drop_last()), list.last())
    }
}

/// The lines that tell of the transfers, one after the other.
pub open spec fn transfer_lines(list: Seq<TransferView>) -> Seq<char>
    decreases list.len(),
{
    if list.len() == 0 {
        Seq::empty()
    } else {
        transfer_lines(list.drop_last()) + transfer_line(list.last())
    }
}

/// The picture of a batch of events: the time of the first event, then one
/// line for each transfer, by source.
pub open spec fn transfers_text(events: Seq<EventView>) -> Seq<char> {
    let time = if events.len() > 0 {
        "Time: "@ + amount_text(events[0].time) + "
"@
    } else {
        Seq::empty()
    };
    let transfers = transfers_of(events);
    let body = if transfers.len() == 0 {
        "No resource transfers in this timestep
"@
    } else {
        transfer_lines(by_source(transfers))
    };
    time + "Resource Transfers:
"@ + body
}

impl Clone for Transfer {
    fn clone(&self) -> (r: Self)
        ensures
            r == *self,
    {
        Transfer {
            source_id: self.source_id.clone(),
            source_port: self.source_port.clone(),
            target_id: self.target_id.clone(),
            target_port: self.target_port.clone(),
            amount: self.amount,
            success: self.success,
        }
    }
}

/// The name held in an optional port, the empty name for none.
fn port_name(port: &Option<String>) -> (r: String)
    ensures
        r@ == port_or_empty(port_view(*port)),
{
    match port {
        Some(p) => p.clone(),
        None => String::new(),
    }
}

/// The transfer that an event tells of, if it tells of any.
pub fn transfer_from(event: &Event) -> (r: Option<Transfer>)
    ensures
        match transfer_of(event@) {
            Some(t) => r matches Some(found) && found@ == t,
            None => r is None,
        },
{
    match &event.payload {
        EventPayload::Resource(amount) => Some(
            Transfer {
                source_id: event.source_id.clone(),
                source_port: port_name(&event.source_port),
                target_id: event.target_id.clone(),
                target_port: port_name(&event.target_port),
                amount: *amount,
                success: false,
            },
        ),
        EventPayload::ResourceAccepted(amount) => Some(
            Transfer {
                source_id: event.target_id.clone(),
                source_port: port_name(&event.target_port),
                target_id: event.source_id.clone(),
                target_port: port_name(&event.source_port),
                amount: *amount,
                success: true,
            },
        ),
        EventPayload::ResourceRejected(amount) => Some(
            Transfer {
                source_id: event.target_id.clone(),
                source_port: port_name(&event.target_port),
                target_id: event.source_id.clone(),
                target_port: port_name(&event.source_port),
                amount: *amount,
                success: false,
            },
        ),
        _ => None,
    }
}

/// Decides `same_transfer`.
fn is_same_transfer(a: &Transfer, b: &Transfer) -> (r: bool)
    ensures
        r == same_transfer(a@, b@),
{
    a.source_id == b.source_id && a.source_port == b.source_port && a.target_id == b.target_id
        && a.target_port == b.target_port && to_hundredths(a.amount) == to_hundredths(b.amount)
}

/// Notes a transfer in the list.
fn note(list: &mut Vec<Transfer>, t: Transfer)
    ensures
        transfers_view(final(list)@) == noted(transfers_view(old(list)@), t@),
{
    let ghost all = transfers_view(list@);
    let mut i: usize = 0;
    assert(all.skip(0) =~= all);
    while i < list.len()
        invariant
            i <= list.len(),
            all == transfers_view(list@),
            list@ == old(list)@,
            first_same(all, t@) == i + first_same(all.skip(i as int), t@),
        decreases list.len() - i,
    {
        assert(all.skip(i as int)[0] == list@[i as int]@);
        assert(all.skip(i as int).drop_first() =~= all.skip(i + 1));
        if is_same_transfer(&list[i], &t) {
            list[i] = t;
            assert(transfers_view(list@) =~= all.update(i as int, t@));
            return;
        }
        i += 1;
    }
    list.push(t);
    assert(transfers_view(list@) =~= all.push(t@));
}

/// Where `insert_by_source` puts a transfer.
proof fn lemma_insert_by_source(sorted: Seq<TransferView>, t: TransferView, j: int)
    requires
        0 <= j <= sorted.len(),
        forall|k: int|
            j <= k < sorted.len() ==> text_precedes(t.source_id, (#[trigger] sorted[k]).source_id),
        j == 0 || !text_precedes(t.source_id, sorted[j - 1].source_id),
    ensures
        insert_by_source(sorted, t) == sorted.insert(j, t),
    decreases sorted.len(),
{
    if sorted.len() == 0 {
        assert(seq![t] =~= sorted.insert(j, t));
    } else if j == sorted.len() {
        assert(sorted.push(t) =~= sorted.insert(j, t));
    } else {
        assert(text_precedes(t.source_id, sorted[sorted.len() - 1].source_id));
        let shorter = sorted.drop_last();
        assert forall|k: int| j <= k < shorter.len() implies text_precedes(
            t.source_id,
            (#[trigger] shorter[k]).source_id,
        ) by {
            assert(shorter[k] == sorted[k]);
        }
        if j > 0 {
            assert(shorter[j - 1] == sorted[j - 1]);
        }
        lemma_insert_by_source(shorter, t, j);
        assert(shorter.insert(j, t).push(sorted.last()) =~= sorted.insert(j, t));
    }
}

/// The transfers in the order of their sources.
fn sort_by_source(list: &Vec<Transfer>) -> (r: Vec<Transfer>)
    ensures
        transfers_view(r@) == by_source(transfers_view(list@)),
{
    let mut sorted: Vec<Transfer> = Vec::new();
    assert(transfers_view(sorted@) =~= Seq::empty());
    let ghost all = transfers_view(list@);
    let mut i: usize = 0;
    while i < list.len()
        invariant
            i <= list.len(),
            sorted.len() == i,
            all == transfers_view(list@),
            transfers_view(sorted@) == by_source(all.take(i as int)),
        decreases list.len() - i,
    {
        assert(all.take(i + 1).drop_last() =~= all.take(i as int));
        assert(all.take(i + 1).last() == list@[i as int]@);
        let t = list[i].clone();
        let mut j: usize = sorted.len();
        while j > 0 && text_before(t.source_id.as_str(), sorted[j - 1].source_id.as_str())
            invariant
                j <= sorted.len(),
                forall|k: int|
                    j <= k < sorted.len() ==> text_precedes(
                        t@.source_id,
                        (#[trigger] transfers_view(sorted@)[k]).source_id,
                    ),
            decreases j,
        {
            j -= 1;
        }
        proof {
            lemma_insert_by_source(transfers_view(sorted@), t@, j as int);
        }
        let ghost before = transfers_view(sorted@);
        sorted.insert(j, t);
        assert(transfers_view(sorted@) =~= before.insert(j as int, t@));
        i += 1;
    }
    assert(all.take(i as int) =~= all);
    sorted
}

/// Creates a picture in text of the resource transfers in a batch of
/// events.
pub fn visualise_resource_transfers(events: &[Event]) -> (r: String)
    ensures
        r@ == transfers_text(events_view(events@)),
{
    let ghost all = events_view(events@);
    let mut transfers: Vec<Transfer> = Vec::new();
    assert(transfers_view(transfers@) =~= Seq::empty());
    let mut i: usize = 0;
    while i < events.len()
        invariant
            i <= events.len(),
            all == events_view(events@),
            transfers_view(transfers@) == transfers_of(all.take(i as int)),
        decreases events.len() - i,
    {
        assert(all.take(i + 1).drop_last() =~= all.take(i as int));
        assert(all.take(i + 1).last() == events@[i as int]@);
        match transfer_from(&events[i]) {
            Some(t) => {
                note(&mut transfers, t);
            },
            None => {},
        }
        i += 1;
    }
    assert(all.take(i as int) =~= all);
    let mut text = if events.len() > 0 {
        assert(all[0] == events@[0]@);
        let time = write_amount(events[0].time);
        String::from_str("Time: ").concat(time.as_str()).concat("
")
    } else {
        String::new()
    };
    text.append("Resource Transfers:
");
    if transfers.len() == 0 {
        text.append("No resource transfers in this timestep
");
        return text;
    }
    let sorted = sort_by_source(&transfers);
    let ghost head = text@;
    let ghost listed = transfers_view(sorted@);
    let mut k: usize = 0;
    assert(listed.take(0) =~= Seq::empty());
    while k < sorted.len()
        invariant
            k <= sorted.len(),
            listed == transfers_view(sorted@),
            text@ == head + transfer_lines(listed.take(k as int)),
        decreases sorted.len() - k,
    {
        assert(listed.take(k + 1).drop_last() =~= listed.take(k as int));
        assert(listed.take(k + 1).last() == sorted@[k as int]@);
        let line = write_transfer(&sorted[k]);
        let ghost so_far = transfer_lines(listed.take(k as int));
        text.append(line.as_str());
        assert(text@ =~= head + (so_far + transfer_line(sorted@[k as int]@)));
        k += 1;
    }
    assert(listed.take(k as int) =~= listed);
    assert(transfers_view(transfers@).len() == transfers.len());
    text
}

} // verus!
