//! What a report on the network holds, sample by sample.
use crate::data::NetworkSample;
use crate::network_watcher::{NetworkView, Reading, Round, SamplesView};
use crate::ringbuf::RingBuf;
use std::time::Duration;
use vstd::prelude::*;

verus! {

/// A sample holds the bytes of a reading, and the time of its round.
pub open spec fn is_sample_of(sample: NetworkSample, reading: Reading, time: Duration) -> bool {
    &&& sample.rx == reading.rx
    &&& sample.tx == reading.tx
    &&& sample.time == time
}

/// A sample was taken of an interface in one of some rounds.
pub open spec fn taken_in(
    sample: NetworkSample,
    rounds: Seq<Round>,
    interface: Seq<char>,
) -> bool {
    exists|r: int, j: int|
        {
            &&& 0 <= r < rounds.len()
            &&& 0 <= j < rounds[r].readings.len()
            &&& (#[trigger] rounds[r].readings[j]).interface@ == interface
            &&& is_sample_of(sample, rounds[r].readings[j], rounds[r].time)
        }
}

proof fn lemma_sample_in(round: Round, interface: Seq<char>, k: int) -> (j: int)
    requires
        0 <= k < crate::network_watcher::samples_in(round, interface).len(),
    ensures
        0 <= j < round.readings.len(),
        round.readings[j].interface@ == interface,
        is_sample_of(
            crate::network_watcher::samples_in(round, interface)[k],
            round.readings[j],
            round.time,
        ),
    decreases round.readings.len(),
{
    let shorter = Round { readings: round.readings.drop_last(), ..round };
    let before = crate::network_watcher::samples_in(shorter, interface);
    if k < before.len() {
        let j = lemma_sample_in(shorter, interface, k);
        assert(shorter.readings[j] == round.readings[j]);
        j
    } else {
        round.readings.len() - 1
    }
}

proof fn lemma_sample_taken(rounds: Seq<Round>, interface: Seq<char>, k: int)
    requires
        0 <= k < crate::network_watcher::all_samples_in(rounds, interface).len(),
    ensures
        taken_in(
            crate::network_watcher::all_samples_in(rounds, interface)[k],
            rounds,
            interface,
        ),
    decreases rounds.len(),
{
    let before = rounds.drop_last();
    let samples = crate::network_watcher::all_samples_in(before, interface);
    let sample = crate::network_watcher::all_samples_in(rounds, interface)[k];
    if k < samples.len() {
        lemma_sample_taken(before, interface, k);
        assert(samples[k] == sample);
        let (r, j) = choose|r: int, j: int|
            {
                &&& 0 <= r < before.len()
                &&& 0 <= j < before[r].readings.len()
                &&& (#[trigger] before[r].readings[j]).interface@ == interface
                &&& is_sample_of(sample, before[r].readings[j], before[r].time)
            };
        assert(rounds[r] == before[r]);
        assert(rounds[r].readings[j].interface@ == interface);
    } else {
        let j = lemma_sample_in(rounds.last(), interface, k - samples.len());
        let r = rounds.len() - 1;
        assert(rounds[r].readings[j].interface@ == interface);
    }
}

/// Every sample that a report holds for an interface has the bytes that one reading of that
/// interface gave as received and as sent, and the time of the round of that reading.
pub proof fn law_reported_samples_were_read(
    period: Duration,
    sample_count: nat,
    rounds: Seq<Round>,
    report: Seq<(String, Vec<NetworkSample>)>,
    i: int,
    k: int,
)
    requires
        sample_count > 0,
        crate::network_watcher::is_report(
            report,
            NetworkView::started(period, sample_count).after_rounds(rounds).samples,
            sample_count,
        ),
        0 <= i < report.len(),
        0 <= k < report[i].1@.len(),
    ensures
        taken_in(report[i].1@[k], rounds, report[i].0@),
{
    let interface = report[i].0@;
    let samples = NetworkView::started(period, sample_count).after_rounds(rounds).samples;
    crate::network_watcher::law_keeps_the_latest_samples(
        period,
        sample_count,
        rounds,
        interface,
    );
    let taken = crate::network_watcher::all_samples_in(rounds, interface);
    let held = samples[interface].held;
    let next = samples[interface].next;
    vstd::arithmetic::div_mod::lemma_mod_bound(taken.len() as int, sample_count as int);
    let h = if held.len() < sample_count {
        k
    } else if k < next {
        k + sample_count - next
    } else {
        k - next
    };
    assert(report[i].1@[k] == held[h]);
    lemma_sample_taken(rounds, interface, taken.len() - held.len() + h);
}

/// A reading that is the last of its interface in a round is the newest sample of it after the
/// round.
pub proof fn law_reading_is_the_newest_sample(watcher: NetworkView, round: Round, j: int)
    requires
        watcher.sample_count > 0,
        0 <= j < round.readings.len(),
        forall|k: int|
            j < k < round.readings.len() ==> (#[trigger] round.readings[k]).interface@
                != round.readings[j].interface@,
    ensures
        ({
            let samples = watcher.after_round(round).samples;
            let interface = round.readings[j].interface@;
            &&& samples.contains_key(interface)
            &&& 0 < samples[interface].held.len() <= watcher.sample_count
            &&& is_sample_of(samples[interface].held.last(), round.readings[j], round.time)
        }),
    decreases round.readings.len(),
{
    if j < round.readings.len() - 1 {
        let shorter = Round { readings: round.readings.drop_last(), ..round };
        assert(forall|k: int|
            0 <= k < shorter.readings.len() ==> #[trigger] shorter.readings[k]
                == round.readings[k]);
        law_reading_is_the_newest_sample(watcher, shorter, j);
    }
}

/// A round leaves alone the samples of interfaces that were not read in it, as well as the period
/// and the number of samples.
pub proof fn law_unread_interfaces_stay(watcher: NetworkView, round: Round, interface: Seq<char>)
    requires
        forall|k: int|
            0 <= k < round.readings.len() ==> (#[trigger] round.readings[k]).interface@
                != interface,
    ensures
        watcher.after_round(round).samples.contains_key(interface)
            == watcher.samples.contains_key(interface),
        watcher.samples.contains_key(interface) ==> watcher.after_round(round).samples[interface]
            == watcher.samples[interface],
        watcher.after_round(round).period == watcher.period,
        watcher.after_round(round).sample_count == watcher.sample_count,
    decreases round.readings.len(),
{
    if round.readings.len() > 0 {
        let shorter = Round { readings: round.readings.drop_last(), ..round };
        assert(forall|k: int|
            0 <= k < shorter.readings.len() ==> #[trigger] shorter.readings[k]
                == round.readings[k]);
        assert(round.readings[round.readings.len() - 1].interface@ != interface);
        law_unread_interfaces_stay(watcher, shorter, interface);
    }
}

proof fn lemma_one_reading(round: Round, interface: Seq<char>, at: int)
    requires
        0 <= at < round.readings.len(),
        round.readings[at].interface@ == interface,
        forall|k: int|
            0 <= k < round.readings.len() && k != at ==> (
            #[trigger] round.readings[k]).interface@ != interface,
    ensures
        crate::network_watcher::samples_in(round, interface).len() == 1,
        is_sample_of(
            crate::network_watcher::samples_in(round, interface)[0],
            round.readings[at],
            round.time,
        ),
    decreases round.readings.len(),
{
    let shorter = Round { readings: round.readings.drop_last(), ..round };
    assert(forall|k: int|
        0 <= k < shorter.readings.len() ==> #[trigger] shorter.readings[k] == round.readings[k]);
    if at < round.readings.len() - 1 {
        assert(round.readings[round.readings.len() - 1].interface@ != interface);
        lemma_one_reading(shorter, interface, at);
    } else {
        lemma_no_reading(shorter, interface);
    }
}

proof fn lemma_no_reading(round: Round, interface: Seq<char>)
    requires
        forall|k: int|
            0 <= k < round.readings.len() ==> (#[trigger] round.readings[k]).interface@
                != interface,
    ensures
        crate::network_watcher::samples_in(round, interface).len() == 0,
    decreases round.readings.len(),
{
    if round.readings.len() > 0 {
        let shorter = Round { readings: round.readings.drop_last(), ..round };
        assert(forall|k: int|
            0 <= k < shorter.readings.len() ==> #[trigger] shorter.readings[k]
                == round.readings[k]);
        assert(round.readings[round.readings.len() - 1].interface@ != interface);
        lemma_no_reading(shorter, interface);
    }
}

/// Where an interface is read once in each round, in the round `r` as its reading `at(r)`, its
/// samples are the readings of the last rounds, as many as are reported on, in their order.
pub proof fn law_samples_are_the_last_readings(
    period: Duration,
    sample_count: nat,
    rounds: Seq<Round>,
    interface: Seq<char>,
    at: spec_fn(int) -> int,
)
    requires
        0 < sample_count <= rounds.len(),
        forall|r: int|
            #![trigger rounds[r]]
            0 <= r < rounds.len() ==> 0 <= at(r) < rounds[r].readings.len()
                && rounds[r].readings[at(r)].interface@ == interface,
        forall|r: int, k: int|
            0 <= r < rounds.len() && 0 <= k < rounds[r].readings.len() && k != at(r) ==> (
            #[trigger] rounds[r].readings[k]).interface@ != interface,
    ensures
        ({
            let samples = NetworkView::started(period, sample_count).after_rounds(rounds).samples;
            &&& samples.contains_key(interface)
            &&& samples[interface].held.len() == sample_count
            &&& forall|i: int|
                0 <= i < sample_count ==> {
                    let r = rounds.len() - sample_count + i;
                    is_sample_of(
                        #[trigger] samples[interface].held[i],
                        rounds[r].readings[at(r)],
                        rounds[r].time,
                    )
                }
        }),
{
    assert forall|r: int| 0 <= r < rounds.len() implies {
        &&& crate::network_watcher::samples_in(#[trigger] rounds[r], interface).len() == 1
        &&& is_sample_of(
            crate::network_watcher::samples_in(rounds[r], interface)[0],
            rounds[r].readings[at(r)],
            rounds[r].time,
        )
    } by {
        lemma_one_reading(rounds[r], interface, at(r));
    }
    crate::network_watcher::law_report_covers_the_last_rounds(
        period,
        sample_count,
        rounds,
        interface,
    );
}

proof fn lemma_slot(next: int, count: int, len: int, i: int)
    requires
        0 < count <= len,
        next == len % count,
        0 <= i < count,
    ensures
        (len - count + i) % count == if next + i < count {
            next + i
        } else {
            next + i - count
        },
{
    let turns = len / count;
    vstd::arithmetic::div_mod::lemma_fundamental_div_mod(len, count);
    vstd::arithmetic::div_mod::lemma_mod_bound(len, count);
    if next + i < count {
        assert(len - count + i == (turns - 1) * count + (next + i)) by (nonlinear_arith)
            requires
                len == count * turns + next,
        ;
        vstd::arithmetic::div_mod::lemma_fundamental_div_mod_converse(
            len - count + i,
            count,
            turns - 1,
            next + i,
        );
    } else {
        assert(len - count + i == turns * count + (next + i - count)) by (nonlinear_arith)
            requires
                len == count * turns + next,
        ;
        vstd::arithmetic::div_mod::lemma_fundamental_div_mod_converse(
            len - count + i,
            count,
            turns,
            next + i - count,
        );
    }
}

/// The sample that was taken as number `k` of an interface is found in the slot `k` modulo the
/// number of slots, for as long as it is kept.
pub proof fn law_slot_of_a_sample(
    samples: SamplesView,
    taken: Seq<NetworkSample>,
    count: nat,
    k: int,
)
    requires
        count > 0,
        samples.next == taken.len() as int % count as int,
        samples.held.len() == if taken.len() < count {
            taken.len()
        } else {
            count
        },
        forall|i: int|
            0 <= i < samples.held.len() ==> #[trigger] samples.held[i] == taken[taken.len()
                - samples.held.len() + i],
        taken.len() - samples.held.len() <= k < taken.len(),
    ensures
        samples.in_slots(count).len() == samples.held.len(),
        samples.in_slots(count)[k % count as int] == taken[k],
{
    if taken.len() < count {
        vstd::arithmetic::div_mod::lemma_small_mod(k as nat, count);
    } else {
        let i = k - (taken.len() - count);
        vstd::arithmetic::div_mod::lemma_mod_bound(taken.len() as int, count as int);
        lemma_slot(samples.next, count as int, taken.len() as int, i);
        assert(samples.held[i] == taken[k]);
    }
}

/// The element that was pushed as number `k` is found in the slot `k` modulo the capacity, for as
/// long as the buffer holds it.
pub proof fn law_slot_of_an_element<T>(buf: RingBuf<T>, pushed: Seq<T>, k: int)
    requires
        buf.capacity() > 0,
        buf@ == crate::ringbuf::after_pushes(pushed, buf.capacity()),
        buf.next_slot() == crate::ringbuf::slot_after(pushed.len(), buf.capacity()),
        0 <= k < pushed.len() <= k + buf.capacity(),
    ensures
        buf.in_slots().len() == buf@.len(),
        buf.in_slots()[k % buf.capacity() as int] == pushed[k],
{
    let count = buf.capacity();
    crate::ringbuf::law_elements_are_the_last_pushed(pushed, count);
    crate::ringbuf::law_slots_take_turns(pushed.len(), count);
    if pushed.len() < count {
        vstd::arithmetic::div_mod::lemma_small_mod(k as nat, count);
        assert(buf@[k] == pushed[k]);
    } else {
        let i = k - (pushed.len() - count);
        vstd::arithmetic::div_mod::lemma_mod_bound(pushed.len() as int, count as int);
        lemma_slot(buf.next_slot(), count as int, pushed.len() as int, i);
        assert(buf@[i] == pushed[k]);
    }
}

} // verus!
