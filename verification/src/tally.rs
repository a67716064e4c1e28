//! What the counts tell of the lines that were counted.
use vstd::arithmetic::div_mod::{lemma_add_mod_noop, lemma_mod_twice};
use vstd::prelude::*;

use crate::counters::series_key;
use crate::keys::{lemma_decimal_is_short, lemma_digit_keys};
use crate::metrics_layer::{
    class_values, counted, law_status_labels_name_the_status,
    law_upstream_labels_name_the_upstream, recorded, spells, status_values, MetricsRecord,
};
use crate::number::{decimal, law_decimal_injective, law_decimal_reads_back};
use crate::parser::AccessRecord;

verus! {

/// The count under a key; zero where there is no counter.
pub open spec fn count_under(series: Map<u64, (Seq<Seq<char>>, u64)>, key: u64) -> nat {
    if series.dom().contains(key) {
        series[key].1 as nat
    } else {
        0
    }
}

/// What the metrics have counted after a history of lines.
pub open spec fn recorded_all(history: Seq<AccessRecord>) -> MetricsRecord
    decreases history.len(),
{
    if history.len() == 0 {
        MetricsRecord::empty()
    } else {
        recorded(recorded_all(history.drop_last()), history.last())
    }
}

/// `values` select the counter under `key`.
pub open spec fn selects(values: Option<Seq<Seq<char>>>, key: u64) -> bool {
    values is Some && series_key(values->0.flatten()) == key
}

/// How many of some lines have a property.
pub open spec fn tally(history: Seq<AccessRecord>, holds: spec_fn(AccessRecord) -> bool) -> nat
    decreases history.len(),
{
    if history.len() == 0 {
        0
    } else {
        tally(history.drop_last(), holds) + if holds(history.last()) {
            1nat
        } else {
            0nat
        }
    }
}

/// The number at which a count starts again from zero.
pub open spec fn count_range() -> nat {
    0x1_0000_0000_0000_0000
}

/// Each counter has counted the lines that select it, and no others: by status,
/// by class of status, and by upstream and status. The counter of bad gateways
/// has counted the lines with the status 502.
pub proof fn law_counters_count_lines(history: Seq<AccessRecord>, key: u64)
    ensures
        count_under(recorded_all(history).status, key) == tally(
            history,
            |r: AccessRecord| selects(r.status_entry(), key),
        ) % count_range(),
        count_under(recorded_all(history).class, key) == tally(
            history,
            |r: AccessRecord| selects(r.class_entry(), key),
        ) % count_range(),
        count_under(recorded_all(history).upstream, key) == tally(
            history,
            |r: AccessRecord| selects(r.upstream_entry(), key),
        ) % count_range(),
        recorded_all(history).bad_gateway == tally(
            history,
            |r: AccessRecord| r.status == Some(502u16),
        ) % count_range(),
    decreases history.len(),
{
    if history.len() > 0 {
        law_counters_count_lines(history.drop_last(), key);
    }
}

/// Each counter of a family stands under the key of the label values that it was
/// made with.
pub open spec fn well_keyed(series: Map<u64, (Seq<Seq<char>>, u64)>) -> bool {
    forall|key: u64| #[trigger]
        series.dom().contains(key) ==> series_key(series[key].0.flatten()) == key
}

/// After any history of lines, each counter stands under the key of its label
/// values.
pub proof fn law_counters_are_well_keyed(history: Seq<AccessRecord>)
    ensures
        well_keyed(recorded_all(history).status),
        well_keyed(recorded_all(history).class),
        well_keyed(recorded_all(history).upstream),
    decreases history.len(),
{
    if history.len() > 0 {
        law_counters_are_well_keyed(history.drop_last());
    }
}

/// Two statuses are in one class if and only if they have the same hundreds.
pub proof fn law_class_is_the_hundreds(a: u16, b: u16)
    ensures
        class_values(a) == class_values(b) <==> a / 100 == b / 100,
{
    if class_values(a) == class_values(b) {
        let left = decimal((a / 100) as nat);
        let right = decimal((b / 100) as nat);
        assert(class_values(a)[0] == class_values(b)[0]);
        assert((left + "xx"@).len() == (right + "xx"@).len());
        assert((left + "xx"@).take(left.len() as int) =~= left);
        assert((right + "xx"@).take(right.len() as int) =~= right);
        law_decimal_injective((a / 100) as nat, (b / 100) as nat);
    }
}

/// Counting a line changes no counter but those that the line selects.
pub proof fn law_other_counters_stay(metrics: MetricsRecord, record: AccessRecord, key: u64)
    ensures
        !selects(record.status_entry(), key) ==> count_under(recorded(metrics, record).status, key)
            == count_under(metrics.status, key),
        !selects(record.class_entry(), key) ==> count_under(recorded(metrics, record).class, key)
            == count_under(metrics.class, key),
        !selects(record.upstream_entry(), key) ==> count_under(
            recorded(metrics, record).upstream,
            key,
        ) == count_under(metrics.upstream, key),
        record.status != Some(502u16) ==> recorded(metrics, record).bad_gateway
            == metrics.bad_gateway,
{
}

/// The key of the counter of a status.
pub open spec fn status_key(status: u16) -> u64 {
    series_key(status_values(status).flatten())
}

/// The key of the counter of the class of a status.
pub open spec fn class_key(status: u16) -> u64 {
    series_key(class_values(status).flatten())
}

/// Each status has a counter of its own.
pub proof fn law_statuses_are_told_apart(a: u16, b: u16)
    ensures
        status_key(a) == status_key(b) <==> a == b,
{
    if status_key(a) == status_key(b) {
        let (left, right) = (decimal(a as nat), decimal(b as nat));
        status_values(a).lemma_flatten_one_element();
        status_values(b).lemma_flatten_one_element();
        law_decimal_reads_back(a as nat);
        law_decimal_reads_back(b as nat);
        lemma_decimal_is_short(a as nat);
        lemma_decimal_is_short(b as nat);
        assert(left + Seq::<char>::empty() =~= left);
        assert(right + Seq::<char>::empty() =~= right);
        lemma_digit_keys(left, right, Seq::empty());
        law_decimal_injective(a as nat, b as nat);
    }
}

/// Each class of statuses, those with the same hundreds, has a counter of its
/// own.
pub proof fn law_classes_are_told_apart(a: u16, b: u16)
    ensures
        class_key(a) == class_key(b) <==> a / 100 == b / 100,
{
    if class_key(a) == class_key(b) {
        let (m, n) = ((a / 100) as nat, (b / 100) as nat);
        class_values(a).lemma_flatten_one_element();
        class_values(b).lemma_flatten_one_element();
        law_decimal_reads_back(m);
        law_decimal_reads_back(n);
        lemma_decimal_is_short(m);
        lemma_decimal_is_short(n);
        reveal_strlit("xx");
        lemma_digit_keys(decimal(m), decimal(n), "xx"@);
        law_decimal_injective(m, n);
    }
}

/// Properties that the lines of a history have alike are had by as many of them.
proof fn lemma_same_tally(
    history: Seq<AccessRecord>,
    holds: spec_fn(AccessRecord) -> bool,
    also: spec_fn(AccessRecord) -> bool,
)
    requires
        forall|r: AccessRecord| #[trigger] holds(r) == also(r),
    ensures
        tally(history, holds) == tally(history, also),
    decreases history.len(),
{
    if history.len() > 0 {
        lemma_same_tally(history.drop_last(), holds, also);
    }
}

/// Where a line has a property if and only if it has one of two others, and no
/// line has both, their tallies add up.
proof fn lemma_split_tally(
    history: Seq<AccessRecord>,
    either: spec_fn(AccessRecord) -> bool,
    one: spec_fn(AccessRecord) -> bool,
    other: spec_fn(AccessRecord) -> bool,
)
    requires
        forall|r: AccessRecord| #[trigger] either(r) == (one(r) || other(r)),
        forall|r: AccessRecord| #[trigger] either(r) ==> !(one(r) && other(r)),
    ensures
        tally(history, either) == tally(history, one) + tally(history, other),
    decreases history.len(),
{
    if history.len() > 0 {
        lemma_split_tally(history.drop_last(), either, one, other);
        assert(either(history.last()) == (one(history.last()) || other(history.last())));
    }
}

/// A line with a status of at least `low` and below `high`.
pub open spec fn status_between(low: nat, high: nat) -> spec_fn(AccessRecord) -> bool {
    |r: AccessRecord| r.status is Some && low <= r.status->0 < high
}

/// The counter of a status has counted the lines with that status.
pub proof fn law_status_counter(history: Seq<AccessRecord>, status: u16)
    ensures
        count_under(recorded_all(history).status, status_key(status)) == tally(
            history,
            |r: AccessRecord| r.status == Some(status),
        ) % count_range(),
{
    law_counters_count_lines(history, status_key(status));
    let selected = |r: AccessRecord| selects(r.status_entry(), status_key(status));
    let has_it = |r: AccessRecord| r.status == Some(status);
    assert forall|r: AccessRecord| #[trigger] selected(r) == has_it(r) by {
        if r.status is Some {
            law_statuses_are_told_apart(r.status->0, status);
        }
    }
    lemma_same_tally(history, selected, has_it);
}

/// The counter of a class has counted the lines with a status of that class.
pub proof fn law_class_counter(history: Seq<AccessRecord>, status: u16)
    ensures
        count_under(recorded_all(history).class, class_key(status)) == tally(
            history,
            |r: AccessRecord| r.status is Some && r.status->0 / 100 == status / 100,
        ) % count_range(),
{
    law_counters_count_lines(history, class_key(status));
    let selected = |r: AccessRecord| selects(r.class_entry(), class_key(status));
    let has_it = |r: AccessRecord| r.status is Some && r.status->0 / 100 == status / 100;
    assert forall|r: AccessRecord| #[trigger] selected(r) == has_it(r) by {
        if r.status is Some {
            law_classes_are_told_apart(r.status->0, status);
        }
    }
    lemma_same_tally(history, selected, has_it);
}

/// The counter of bad gateways agrees with the counter of the status 502.
pub proof fn law_bad_gateways_agree(history: Seq<AccessRecord>)
    ensures
        count_under(recorded_all(history).status, status_key(502))
            == recorded_all(history).bad_gateway,
{
    law_status_counter(history, 502);
    law_counters_count_lines(history, 0);
}

/// The counts of the statuses from `low` on, `count` of them, taken together.
pub open spec fn status_sum(
    series: Map<u64, (Seq<Seq<char>>, u64)>,
    low: nat,
    count: nat,
) -> nat
    decreases count,
{
    if count == 0 {
        0
    } else {
        status_sum(series, low, (count - 1) as nat) + count_under(
            series,
            status_key((low + count - 1) as u16),
        )
    }
}

/// The counts of a range of statuses add up to the number of lines with a status
/// in it, modulo the number at which a count starts again.
pub proof fn law_statuses_add_up(history: Seq<AccessRecord>, low: nat, count: nat)
    requires
        low + count <= 0x1_0000,
    ensures
        status_sum(recorded_all(history).status, low, count) % count_range() == tally(
            history,
            status_between(low, low + count),
        ) % count_range(),
    decreases count,
{
    let series = recorded_all(history).status;
    if count == 0 {
        lemma_none_between(history, low);
    } else {
        let rest = (count - 1) as nat;
        let last = (low + count - 1) as u16;
        let is_last = |r: AccessRecord| r.status == Some(last);
        law_statuses_add_up(history, low, rest);
        law_status_counter(history, last);
        lemma_split_tally(
            history,
            status_between(low, low + count),
            status_between(low, low + rest),
            is_last,
        );
        let (a, b) = (status_sum(series, low, rest) as int, tally(history, is_last) as int);
        let c = tally(history, status_between(low, low + rest)) as int;
        let range = count_range() as int;
        lemma_add_mod_noop(a, b % range, range);
        lemma_mod_twice(b, range);
        lemma_add_mod_noop(c, b, range);
    }
}

/// No status is in an empty range.
proof fn lemma_none_between(history: Seq<AccessRecord>, low: nat)
    ensures
        tally(history, status_between(low, low)) == 0,
    decreases history.len(),
{
    if history.len() > 0 {
        lemma_none_between(history.drop_last(), low);
    }
}

/// How many statuses there are in a class: a hundred, but for the last.
pub open spec fn class_size(hundreds: nat) -> nat {
    if hundreds == 655 {
        36
    } else {
        100
    }
}

/// The counter of a class is the sum of the counters of its statuses, modulo the
/// number at which a count starts again.
pub proof fn law_class_is_the_sum_of_its_statuses(history: Seq<AccessRecord>, status: u16)
    ensures
        count_under(recorded_all(history).class, class_key(status)) == status_sum(
            recorded_all(history).status,
            (status / 100) as nat * 100,
            class_size((status / 100) as nat),
        ) % count_range(),
{
    let hundreds = (status / 100) as nat;
    let size = class_size(hundreds);
    law_class_counter(history, status);
    law_statuses_add_up(history, hundreds * 100, size);
    lemma_same_tally(
        history,
        |r: AccessRecord| r.status is Some && r.status->0 / 100 == status / 100,
        status_between(hundreds * 100, hundreds * 100 + size),
    );
}

/// The counts of all statuses add up to the number of lines with a status,
/// modulo the number at which a count starts again.
pub proof fn law_all_statuses_add_up(history: Seq<AccessRecord>)
    ensures
        status_sum(recorded_all(history).status, 0, 0x1_0000) % count_range() == tally(
            history,
            |r: AccessRecord| r.status is Some,
        ) % count_range(),
{
    law_statuses_add_up(history, 0, 0x1_0000);
    lemma_same_tally(
        history,
        status_between(0, 0x1_0000),
        |r: AccessRecord| r.status is Some,
    );
}

/// A count after one more, or after none.
pub open spec fn count_after(count: nat, more: bool) -> nat {
    if more {
        (count + 1) % count_range()
    } else {
        count
    }
}

/// The address under which a line counts its upstream.
pub open spec fn counted_addr(record: AccessRecord) -> Seq<char> {
    if record.upstream_addr is Some {
        record.upstream_addr->0
    } else {
        "<none>"@
    }
}

/// A line counts in the family by upstream under a key.
pub open spec fn counts_upstream(record: AccessRecord, key: u64) -> bool {
    record.upstream_status is Some && series_key(
        counted_addr(record) + decimal(record.upstream_status->0 as nat),
    ) == key
}

/// Two texts one behind the other.
proof fn lemma_flatten_two(a: Seq<char>, b: Seq<char>)
    ensures
        seq![a, b].flatten() == a + b,
{
    let one = seq![a];
    assert(seq![a, b] =~= one.push(b));
    one.lemma_flatten_push(b);
    one.lemma_flatten_one_element();
}

/// What a line selects in the family by upstream.
proof fn lemma_selects_upstream(record: AccessRecord, key: u64)
    ensures
        selects(record.upstream_entry(), key) <==> counts_upstream(record, key),
{
    if let Some(status) = record.upstream_status {
        lemma_flatten_two(counted_addr(record), decimal(status as nat));
    }
}

/// One line moves each counter by one or not at all: that of its status, that of
/// the hundreds of its status, that of bad gateways where its status is 502, and
/// that of its upstream's address and status. It moves no other.
pub proof fn law_one_line_moves_its_counters(
    metrics: MetricsRecord,
    record: AccessRecord,
    status: u16,
    key: u64,
)
    ensures
        count_under(recorded(metrics, record).status, status_key(status)) == count_after(
            count_under(metrics.status, status_key(status)),
            record.status == Some(status),
        ),
        count_under(recorded(metrics, record).class, class_key(status)) == count_after(
            count_under(metrics.class, class_key(status)),
            record.status is Some && record.status->0 / 100 == status / 100,
        ),
        recorded(metrics, record).bad_gateway == count_after(
            metrics.bad_gateway as nat,
            record.status == Some(502u16),
        ),
        count_under(recorded(metrics, record).upstream, key) == count_after(
            count_under(metrics.upstream, key),
            counts_upstream(record, key),
        ),
{
    lemma_selects_upstream(record, key);
    if record.status is Some {
        law_statuses_are_told_apart(record.status->0, status);
        law_classes_are_told_apart(record.status->0, status);
    }
}

/// The counter of an upstream's address and status has counted the lines with
/// that address and status; and lines whose address and status have the same key,
/// as where they read alike one behind the other.
pub proof fn law_upstream_counter(history: Seq<AccessRecord>, addr: Seq<char>, status: u16)
    ensures
        ({
            let key = series_key(addr + decimal(status as nat));
            &&& count_under(recorded_all(history).upstream, key) == tally(
                history,
                |r: AccessRecord| counts_upstream(r, key),
            ) % count_range()
            &&& forall|r: AccessRecord|
                r.upstream_status == Some(status) && (r.upstream_addr == Some(addr)
                    || r.upstream_addr is None && addr == "<none>"@) ==> #[trigger] counts_upstream(
                    r,
                    key,
                )
        }),
{
    let key = series_key(addr + decimal(status as nat));
    law_counters_count_lines(history, key);
    let selected = |r: AccessRecord| selects(r.upstream_entry(), key);
    let counts = |r: AccessRecord| counts_upstream(r, key);
    assert forall|r: AccessRecord| #[trigger] selected(r) == counts(r) by {
        lemma_selects_upstream(r, key);
    }
    lemma_same_tally(history, selected, counts);
}

/// The line at `i` is the first that selects a key.
pub open spec fn first_selecting(
    entries: Seq<Option<Seq<Seq<char>>>>,
    key: u64,
    i: int,
) -> bool {
    &&& 0 <= i < entries.len()
    &&& selects(entries[i], key)
    &&& forall|j: int| 0 <= j < i ==> !selects(#[trigger] entries[j], key)
}

/// What the lines of a history count as by status.
pub open spec fn status_entries(history: Seq<AccessRecord>) -> Seq<Option<Seq<Seq<char>>>> {
    history.map_values(|r: AccessRecord| r.status_entry())
}

/// What the lines of a history count as by class.
pub open spec fn class_entries(history: Seq<AccessRecord>) -> Seq<Option<Seq<Seq<char>>>> {
    history.map_values(|r: AccessRecord| r.class_entry())
}

/// What the lines of a history count as by upstream.
pub open spec fn upstream_entries(history: Seq<AccessRecord>) -> Seq<Option<Seq<Seq<char>>>> {
    history.map_values(|r: AccessRecord| r.upstream_entry())
}

/// A family has a counter if and only if a line selects it, with the label values
/// of the first that does.
pub open spec fn labelled_by_lines(
    series: Map<u64, (Seq<Seq<char>>, u64)>,
    entries: Seq<Option<Seq<Seq<char>>>>,
    key: u64,
) -> bool {
    &&& series.dom().contains(key) <==> exists|i: int| first_selecting(entries, key, i)
    &&& forall|i: int|
        #[trigger] first_selecting(entries, key, i) ==> Some(series[key].0) == entries[i]
}

/// One more line keeps the labels of a family.
proof fn lemma_labels_stay(
    series: Map<u64, (Seq<Seq<char>>, u64)>,
    entries: Seq<Option<Seq<Seq<char>>>>,
    last: Option<Seq<Seq<char>>>,
    key: u64,
)
    requires
        labelled_by_lines(series, entries, key),
    ensures
        labelled_by_lines(counted(series, last), entries.push(last), key),
{
    let more = entries.push(last);
    let after = counted(series, last);
    let n = entries.len() as int;
    assert forall|i: int| 0 <= i < n implies more[i] == entries[i] by {}
    assert forall|i: int| first_selecting(entries, key, i) implies first_selecting(
        more,
        key,
        i,
    ) by {
        assert forall|j: int| 0 <= j < i implies !selects(#[trigger] more[j], key) by {
            assert(more[j] == entries[j]);
        }
    }
    assert forall|i: int| i < n && first_selecting(more, key, i) implies first_selecting(
        entries,
        key,
        i,
    ) by {
        assert forall|j: int| 0 <= j < i implies !selects(#[trigger] entries[j], key) by {
            assert(more[j] == entries[j]);
        }
    }
    if series.dom().contains(key) {
        let i = choose|i: int| first_selecting(entries, key, i);
        assert(first_selecting(more, key, i));
        assert forall|k: int| #[trigger] first_selecting(more, key, k) implies Some(after[key].0)
            == more[k] by {
            assert(k == i) by {
                if k > i {
                    assert(selects(more[i], key));
                } else if k < i {
                    assert(selects(more[k], key));
                }
            }
        }
    } else {
        assert forall|j: int| 0 <= j < n implies !selects(#[trigger] entries[j], key) by {
            if selects(entries[j], key) {
                lemma_some_first(entries, key, j);
            }
        }
        if selects(last, key) {
            assert(more[n] == last);
            assert forall|j: int| 0 <= j < n implies !selects(#[trigger] more[j], key) by {
                assert(more[j] == entries[j]);
            }
            assert(first_selecting(more, key, n));
        }
        assert forall|k: int| #[trigger] first_selecting(more, key, k) implies k == n && Some(
            after[key].0,
        ) == more[k] by {
            if k < n {
                assert(selects(entries[k], key));
            }
        }
    }
}

/// Where a line selects a key, one does so first.
proof fn lemma_some_first(entries: Seq<Option<Seq<Seq<char>>>>, key: u64, i: int)
    requires
        0 <= i < entries.len(),
        selects(entries[i], key),
    ensures
        exists|k: int| first_selecting(entries, key, k),
    decreases i,
{
    if forall|j: int| 0 <= j < i ==> !selects(#[trigger] entries[j], key) {
        assert(first_selecting(entries, key, i));
    } else {
        let j = choose|j: int| 0 <= j < i && selects(#[trigger] entries[j], key);
        lemma_some_first(entries, key, j);
    }
}

/// After any history of lines, a family has a counter if and only if a line
/// selected it, and the counter has the label values of the first line that did.
pub proof fn law_counters_are_labelled_by_lines(history: Seq<AccessRecord>, key: u64)
    ensures
        labelled_by_lines(recorded_all(history).status, status_entries(history), key),
        labelled_by_lines(recorded_all(history).class, class_entries(history), key),
        labelled_by_lines(recorded_all(history).upstream, upstream_entries(history), key),
    decreases history.len(),
{
    if history.len() > 0 {
        let earlier = history.drop_last();
        let before = recorded_all(earlier);
        let last = history.last();
        law_counters_are_labelled_by_lines(earlier, key);
        lemma_labels_stay(before.status, status_entries(earlier), last.status_entry(), key);
        lemma_labels_stay(before.class, class_entries(earlier), last.class_entry(), key);
        lemma_labels_stay(before.upstream, upstream_entries(earlier), last.upstream_entry(), key);
        assert(status_entries(history) =~= status_entries(earlier).push(last.status_entry()));
        assert(class_entries(history) =~= class_entries(earlier).push(last.class_entry()));
        assert(upstream_entries(history) =~= upstream_entries(earlier).push(
            last.upstream_entry(),
        ));
    }
}

/// After any history of lines, there is a counter for each status that a line had
/// and for each class of one, and no other. The label of a status spells it, and
/// the label of a class the hundreds, before two letters `x`.
pub proof fn law_counters_name_what_they_count(history: Seq<AccessRecord>, status: u16)
    ensures
        ({
            let by_status = recorded_all(history).status;
            let by_class = recorded_all(history).class;
            let seen = exists|i: int|
                0 <= i < history.len() && (#[trigger] history[i]).status == Some(status);
            let class_seen = exists|i: int|
                0 <= i < history.len() && (#[trigger] history[i]).status is Some
                    && history[i].status->0 / 100 == status / 100;
            &&& by_status.dom().contains(status_key(status)) <==> seen
            &&& seen ==> by_status[status_key(status)].0.len() == 1 && spells(
                by_status[status_key(status)].0[0],
                status as nat,
            )
            &&& by_class.dom().contains(class_key(status)) <==> class_seen
            &&& class_seen ==> ({
                let labels = by_class[class_key(status)].0;
                &&& labels.len() == 1
                &&& labels[0].len() > 2
                &&& labels[0].skip(labels[0].len() - 2) == seq!['x', 'x']
                &&& spells(labels[0].take(labels[0].len() - 2), (status / 100) as nat)
            })
        }),
{
    let by_status = status_entries(history);
    let by_class = class_entries(history);
    law_counters_are_labelled_by_lines(history, status_key(status));
    law_counters_are_labelled_by_lines(history, class_key(status));
    assert forall|i: int| 0 <= i < history.len() implies (selects(
        by_status[i],
        status_key(status),
    ) <==> (#[trigger] history[i]).status == Some(status)) && (selects(
        by_class[i],
        class_key(status),
    ) <==> history[i].status is Some && history[i].status->0 / 100 == status / 100) by {
        assert(by_status[i] == history[i].status_entry());
        assert(by_class[i] == history[i].class_entry());
        if history[i].status is Some {
            law_statuses_are_told_apart(history[i].status->0, status);
            law_classes_are_told_apart(history[i].status->0, status);
        }
    }
    if exists|i: int| 0 <= i < history.len() && (#[trigger] history[i]).status == Some(status) {
        let i = choose|i: int|
            0 <= i < history.len() && (#[trigger] history[i]).status == Some(status);
        lemma_some_first(by_status, status_key(status), i);
        let k = choose|k: int| first_selecting(by_status, status_key(status), k);
        assert(history[k].status == Some(status));
        law_status_labels_name_the_status(history[k]);
    } else if exists|k: int| first_selecting(by_status, status_key(status), k) {
        let k = choose|k: int| first_selecting(by_status, status_key(status), k);
        assert(history[k].status == Some(status));
    }
    if exists|i: int|
        0 <= i < history.len() && (#[trigger] history[i]).status is Some
            && history[i].status->0 / 100 == status / 100 {
        let i = choose|i: int|
            0 <= i < history.len() && (#[trigger] history[i]).status is Some
                && history[i].status->0 / 100 == status / 100;
        lemma_some_first(by_class, class_key(status), i);
        let k = choose|k: int| first_selecting(by_class, class_key(status), k);
        assert(history[k].status is Some);
        law_status_labels_name_the_status(history[k]);
    } else if exists|k: int| first_selecting(by_class, class_key(status), k) {
        let k = choose|k: int| first_selecting(by_class, class_key(status), k);
        assert(history[k].status is Some);
    }
}

/// After any history of lines, the counter of an upstream has the address and the
/// status of a line that it counted.
pub proof fn law_upstream_counters_name_a_line(history: Seq<AccessRecord>, key: u64)
    ensures
        ({
            let series = recorded_all(history).upstream;
            &&& series.dom().contains(key) <==> exists|i: int|
                0 <= i < history.len() && counts_upstream(#[trigger] history[i], key)
            &&& series.dom().contains(key) ==> exists|i: int|
                {
                    &&& 0 <= i < history.len()
                    &&& counts_upstream(#[trigger] history[i], key)
                    &&& series[key].0.len() == 2
                    &&& series[key].0[0] == counted_addr(history[i])
                    &&& spells(series[key].0[1], history[i].upstream_status->0 as nat)
                }
        }),
{
    let entries = upstream_entries(history);
    law_counters_are_labelled_by_lines(history, key);
    assert forall|i: int| 0 <= i < history.len() implies (selects(entries[i], key)
        <==> counts_upstream(#[trigger] history[i], key)) by {
        assert(entries[i] == history[i].upstream_entry());
        lemma_selects_upstream(history[i], key);
    }
    if exists|i: int| 0 <= i < history.len() && counts_upstream(#[trigger] history[i], key) {
        let i = choose|i: int|
            0 <= i < history.len() && counts_upstream(#[trigger] history[i], key);
        lemma_some_first(entries, key, i);
    }
    if exists|k: int| first_selecting(entries, key, k) {
        let k = choose|k: int| first_selecting(entries, key, k);
        assert(counts_upstream(history[k], key));
        law_upstream_labels_name_the_upstream(history[k]);
    }
}

} // verus!
