//! How fast the network interfaces are, from samples.
use crate::data::NetworkSample;
use crate::ringbuf::RingBuf;
use crate::table::Table;
use std::time::Duration;
use vstd::prelude::*;

verus! {

/// What one interface received and sent since it was read before.
#[derive(Debug)]
pub struct Reading {
    pub interface: String,
    pub rx: u64,
    pub tx: u64,
}

impl Reading {
    /// The sample that a reading gives when it was taken over some time.
    pub open spec fn sample(self, time: Duration) -> NetworkSample {
        NetworkSample { rx: self.rx, tx: self.tx, time }
    }
}

/// Takes samples of all interfaces in rounds, and reports on the latest ones every `sample_count`
/// rounds.
pub struct NetworkWatcher {
    period: Duration,
    sample_count: usize,
    sample_map: Table<RingBuf<NetworkSample>>,
    round: usize,
}

/// The samples of an interface, the oldest first, and the slot that the next one goes to.
#[verifier::ext_equal]
pub struct SamplesView {
    pub held: Seq<NetworkSample>,
    pub next: int,
}

/// What a watcher keeps.
#[verifier::ext_equal]
pub struct NetworkView {
    pub period: Duration,
    pub sample_count: nat,
    pub samples: Map<Seq<char>, SamplesView>,
    pub round: nat,
}

/// One round: what was read, and over what time.
#[verifier::ext_equal]
pub struct Round {
    pub readings: Seq<Reading>,
    pub time: Duration,
}

/// What a ring of samples holds.
pub open spec fn samples_view(ring: RingBuf<NetworkSample>) -> SamplesView {
    SamplesView { held: ring@, next: ring.next_slot() }
}

impl SamplesView {
    /// No samples.
    pub open spec fn none() -> Self {
        SamplesView { held: Seq::empty(), next: 0 }
    }

    /// One more sample, where at most `count` are kept.
    pub open spec fn pushed(self, sample: NetworkSample, count: nat) -> Self {
        SamplesView {
            held: crate::ringbuf::latest(self.held.push(sample), count),
            next: (self.next + 1) % (count as int),
        }
    }

    /// The samples in the order of their slots.
    pub open spec fn in_slots(self, count: nat) -> Seq<NetworkSample> {
        if self.held.len() < count {
            self.held
        } else {
            self.held.skip(count - self.next) + self.held.take(count - self.next)
        }
    }
}

/// The samples of an interface, if it was read before.
pub open spec fn samples_of(
    samples: Map<Seq<char>, SamplesView>,
    interface: Seq<char>,
) -> SamplesView {
    if samples.contains_key(interface) {
        samples[interface]
    } else {
        SamplesView::none()
    }
}

/// The samples after one more reading.
pub open spec fn recorded(
    samples: Map<Seq<char>, SamplesView>,
    reading: Reading,
    time: Duration,
    count: nat,
) -> Map<Seq<char>, SamplesView> {
    samples.insert(
        reading.interface@,
        samples_of(samples, reading.interface@).pushed(reading.sample(time), count),
    )
}

/// The samples after the readings of one round, in their order.
pub open spec fn all_recorded(
    samples: Map<Seq<char>, SamplesView>,
    round: Round,
    count: nat,
) -> Map<Seq<char>, SamplesView>
    decreases round.readings.len(),
{
    if round.readings.len() == 0 {
        samples
    } else {
        recorded(
            all_recorded(samples, Round { readings: round.readings.drop_last(), ..round }, count),
            round.readings.last(),
            round.time,
            count,
        )
    }
}

impl NetworkView {
    /// What a watcher keeps before the first round.
    pub open spec fn started(period: Duration, sample_count: nat) -> Self {
        NetworkView { period, sample_count, samples: Map::empty(), round: 0 }
    }

    /// What it keeps after one more round.
    pub open spec fn after_round(self, round: Round) -> Self {
        NetworkView {
            samples: all_recorded(self.samples, round, self.sample_count),
            round: (self.round + 1) % self.sample_count,
            ..self
        }
    }

    /// Whether the round that comes next ends with a report.
    pub open spec fn reports_next(self) -> bool {
        self.round == self.sample_count - 1
    }

    /// What it keeps after some rounds.
    pub open spec fn after_rounds(self, rounds: Seq<Round>) -> Self
        decreases rounds.len(),
    {
        if rounds.len() == 0 {
            self
        } else {
            self.after_rounds(rounds.drop_last()).after_round(rounds.last())
        }
    }
}

/// `report` names each interface once, with its samples in the order of their slots.
pub open spec fn is_report(
    report: Seq<(String, Vec<NetworkSample>)>,
    samples: Map<Seq<char>, SamplesView>,
    count: nat,
) -> bool {
    &&& forall|i: int, j: int|
        0 <= i < j < report.len() ==> (#[trigger] report[i]).0@ != (#[trigger] report[j]).0@
    &&& forall|i: int|
        0 <= i < report.len() ==> samples.contains_key((#[trigger] report[i]).0@)
            && report[i].1@ == samples[report[i].0@].in_slots(count)
    &&& forall|interface: Seq<char>| #[trigger]
        samples.contains_key(interface) ==> exists|i: int|
            0 <= i < report.len() && (#[trigger] report[i]).0@ == interface
}

impl View for NetworkWatcher {
    type V = NetworkView;

    closed spec fn view(&self) -> NetworkView {
        NetworkView {
            period: self.period,
            sample_count: self.sample_count as nat,
            samples: self.sample_map@.map_values(
                |ring: RingBuf<NetworkSample>| samples_view(ring),
            ),
            round: self.round as nat,
        }
    }
}

impl NetworkWatcher {
    /// Each ring of samples has room for as many as are reported on.
    pub closed spec fn wf(self) -> bool {
        &&& self.sample_map.wf()
        &&& self.sample_count > 0 ==> self.round < self.sample_count
        &&& forall|interface: Seq<char>| #[trigger]
            self.sample_map@.contains_key(interface) ==> {
                &&& self.sample_map@[interface].wf()
                &&& self.sample_map@[interface].capacity() == self.sample_count
            }
    }

    /// A watcher that takes a sample each `period`, and reports on `sample_count` of them.
    pub fn new(period: Duration, sample_count: usize) -> (watcher: Self)
        ensures
            watcher.wf(),
            watcher@ == NetworkView::started(period, sample_count as nat),
    {
        let watcher = NetworkWatcher { period, sample_count, sample_map: Table::new(), round: 0 };
        assert(watcher@.samples =~= Map::<Seq<char>, SamplesView>::empty());
        watcher
    }

    /// The time from one sample to the next.
    pub fn period(&self) -> (period: Duration)
        ensures
            period == self@.period,
    {
        self.period
    }

    /// The number of samples that a report covers.
    pub fn sample_count(&self) -> (count: usize)
        ensures
            count == self@.sample_count,
    {
        self.sample_count
    }

    /// Adds the sample that a reading gives.
    fn record(&mut self, reading: &Reading, time: Duration)
        requires
            old(self).wf(),
            old(self)@.sample_count > 0,
        ensures
            final(self).wf(),
            final(self)@ == (NetworkView {
                samples: recorded(old(self)@.samples, *reading, time, old(self)@.sample_count),
                ..old(self)@
            }),
    {
        let sample = NetworkSample { rx: reading.rx, tx: reading.tx, time };
        match self.sample_map.get_mut(&reading.interface) {
            Some(ring) => {
                ring.push(sample);
            },
            None => {
                let mut ring = RingBuf::new(self.sample_count);
                ring.push(sample);
                self.sample_map.insert(reading.interface.clone(), ring);
            },
        }
        proof {
            assert(self@.samples =~= recorded(
                old(self)@.samples,
                *reading,
                time,
                old(self)@.sample_count,
            ));
        }
    }

    /// Takes the samples of one round, and tells whether a report is due.
    pub fn take_round(&mut self, readings: &Vec<Reading>, time: Duration) -> (report_due: bool)
        requires
            old(self).wf(),
            old(self)@.sample_count > 0,
        ensures
            final(self).wf(),
            final(self)@ == old(self)@.after_round((Round { readings: readings@, time })),
            report_due == old(self)@.reports_next(),
    {
        let ghost before = self@;
        let mut i: usize = 0;
        assert(readings@.take(0) =~= Seq::empty());
        while i < readings.len()
            invariant
                i <= readings@.len(),
                self.wf(),
                before.sample_count > 0,
                self@ == (NetworkView {
                    samples: all_recorded(
                        before.samples,
                        Round { readings: readings@.take(i as int), time },
                        before.sample_count,
                    ),
                    ..before
                }),
            decreases readings@.len() - i,
        {
            self.record(&readings[i], time);
            assert(readings@.take(i + 1).drop_last() =~= readings@.take(i as int));
            i += 1;
        }
        assert(readings@.take(i as int) =~= readings@);
        let report_due = self.round == self.sample_count - 1;
        self.round = (self.round + 1) % self.sample_count;
        report_due
    }

    /// The samples of each interface.
    pub fn report(&self) -> (report: Vec<(String, Vec<NetworkSample>)>)
        requires
            self.wf(),
            self@.sample_count > 0,
        ensures
            is_report(report@, self@.samples, self@.sample_count),
    {
        let entries = self.sample_map.entries();
        let mut report: Vec<(String, Vec<NetworkSample>)> = Vec::new();
        let mut i: usize = 0;
        while i < entries.len()
            invariant
                self.wf(),
                self.sample_count > 0,
                i <= entries@.len(),
                crate::table::lists(entries@, self.sample_map@),
                report@.len() == i,
                forall|j: int|
                    0 <= j < i ==> (#[trigger] report@[j]).0@ == entries@[j].0@ && report@[j].1@
                        == samples_view(entries@[j].1).in_slots(self.sample_count as nat),
            decreases entries@.len() - i,
        {
            assert(self.sample_map@.contains_key(entries@[i as int].0@));
            let slots = entries[i].1.iter();
            let mut samples: Vec<NetworkSample> = Vec::new();
            let mut k: usize = 0;
            while k < slots.len()
                invariant
                    k <= slots@.len(),
                    samples@.len() == k,
                    forall|j: int| 0 <= j < k ==> (#[trigger] samples@[j]) == *slots@[j],
                decreases slots@.len() - k,
            {
                samples.push(*slots[k]);
                k += 1;
            }
            assert(samples@ =~= samples_view(entries@[i as int].1).in_slots(
                self.sample_count as nat,
            ));
            report.push((entries[i].0.clone(), samples));
            i += 1;
        }
        proof {
            assert forall|interface: Seq<char>| #[trigger]
                self@.samples.contains_key(interface) implies exists|j: int|
                0 <= j < report@.len() && (#[trigger] report@[j]).0@ == interface by {
                assert(self.sample_map@.contains_key(interface));
                let j = choose|j: int|
                    0 <= j < entries@.len() && (#[trigger] entries@[j]).0@ == interface;
                assert(report@[j].0@ == interface);
            }
        }
        report
    }
}

/// The samples of one interface in one round, in their order.
pub open spec fn samples_in(round: Round, interface: Seq<char>) -> Seq<NetworkSample>
    decreases round.readings.len(),
{
    if round.readings.len() == 0 {
        Seq::empty()
    } else {
        let before = samples_in(
            Round { readings: round.readings.drop_last(), ..round },
            interface,
        );
        if round.readings.last().interface@ == interface {
            before.push(round.readings.last().sample(round.time))
        } else {
            before
        }
    }
}

/// The samples of one interface in some rounds, in their order.
pub open spec fn all_samples_in(rounds: Seq<Round>, interface: Seq<char>) -> Seq<NetworkSample>
    decreases rounds.len(),
{
    if rounds.len() == 0 {
        Seq::empty()
    } else {
        all_samples_in(rounds.drop_last(), interface) + samples_in(rounds.last(), interface)
    }
}

/// The samples of an interface that was read over some time are the latest ones.
pub open spec fn holds_latest(
    samples: Map<Seq<char>, SamplesView>,
    interface: Seq<char>,
    taken: Seq<NetworkSample>,
    count: nat,
) -> bool {
    &&& samples.contains_key(interface) <==> taken.len() > 0
    &&& samples_of(samples, interface).held == crate::ringbuf::latest(taken, count)
    &&& samples_of(samples, interface).next == taken.len() as int % count as int
}

proof fn lemma_record_holds_latest(
    samples: Map<Seq<char>, SamplesView>,
    round: Round,
    interface: Seq<char>,
    taken: Seq<NetworkSample>,
    count: nat,
)
    requires
        count > 0,
        holds_latest(samples, interface, taken, count),
    ensures
        holds_latest(
            all_recorded(samples, round, count),
            interface,
            taken + samples_in(round, interface),
            count,
        ),
    decreases round.readings.len(),
{
    if round.readings.len() == 0 {
        assert(taken + samples_in(round, interface) =~= taken);
    } else {
        let shorter = Round { readings: round.readings.drop_last(), ..round };
        lemma_record_holds_latest(samples, shorter, interface, taken, count);
        let before = taken + samples_in(shorter, interface);
        let reading = round.readings.last();
        if reading.interface@ == interface {
            let after = before.push(reading.sample(round.time));
            assert(taken + samples_in(round, interface) =~= after);
            assert(crate::ringbuf::latest(
                crate::ringbuf::latest(before, count).push(reading.sample(round.time)),
                count,
            ) =~= crate::ringbuf::latest(after, count));
            vstd::arithmetic::div_mod::lemma_add_mod_noop(before.len() as int, 1, count as int);
            vstd::arithmetic::div_mod::lemma_add_mod_noop(
                before.len() as int % count as int,
                1,
                count as int,
            );
            vstd::arithmetic::div_mod::lemma_mod_twice(before.len() as int, count as int);
        }
    }
}

/// After any rounds, the samples of an interface are the last `sample_count` that were taken of it,
/// or all of them if there are fewer.
pub proof fn law_keeps_the_latest_samples(
    period: Duration,
    sample_count: nat,
    rounds: Seq<Round>,
    interface: Seq<char>,
)
    requires
        sample_count > 0,
    ensures
        holds_latest(
            NetworkView::started(period, sample_count).after_rounds(rounds).samples,
            interface,
            all_samples_in(rounds, interface),
            sample_count,
        ),
        NetworkView::started(period, sample_count).after_rounds(rounds).sample_count
            == sample_count,
    decreases rounds.len(),
{
    if rounds.len() == 0 {
        vstd::arithmetic::div_mod::lemma_small_mod(0, sample_count);
    } else {
        law_keeps_the_latest_samples(period, sample_count, rounds.drop_last(), interface);
        lemma_record_holds_latest(
            NetworkView::started(period, sample_count).after_rounds(rounds.drop_last()).samples,
            rounds.last(),
            interface,
            all_samples_in(rounds.drop_last(), interface),
            sample_count,
        );
    }
}

proof fn lemma_one_sample_each(rounds: Seq<Round>, interface: Seq<char>)
    requires
        forall|i: int|
            0 <= i < rounds.len() ==> samples_in(#[trigger] rounds[i], interface).len() == 1,
    ensures
        all_samples_in(rounds, interface).len() == rounds.len(),
        forall|i: int|
            0 <= i < rounds.len() ==> #[trigger] all_samples_in(rounds, interface)[i]
                == samples_in(rounds[i], interface)[0],
    decreases rounds.len(),
{
    if rounds.len() > 0 {
        let before = rounds.drop_last();
        assert(forall|i: int| 0 <= i < before.len() ==> #[trigger] before[i] == rounds[i]);
        lemma_one_sample_each(before, interface);
        assert(samples_in(rounds.last(), interface).len() == 1);
        assert forall|i: int| 0 <= i < rounds.len() implies #[trigger] all_samples_in(
            rounds,
            interface,
        )[i] == samples_in(rounds[i], interface)[0] by {
            if i < before.len() {
                assert(all_samples_in(rounds, interface)[i] == all_samples_in(
                    before,
                    interface,
                )[i]);
            }
        }
    }
}

/// The samples of an interface that is read once in each round are those of the last
/// `sample_count` rounds. A report thus covers the rounds since the report before, each once.
pub proof fn law_report_covers_the_last_rounds(
    period: Duration,
    sample_count: nat,
    rounds: Seq<Round>,
    interface: Seq<char>,
)
    requires
        0 < sample_count <= rounds.len(),
        forall|i: int|
            0 <= i < rounds.len() ==> samples_in(#[trigger] rounds[i], interface).len() == 1,
    ensures
        ({
            let after = NetworkView::started(period, sample_count).after_rounds(rounds);
            &&& after.samples.contains_key(interface)
            &&& after.samples[interface].held.len() == sample_count
            &&& forall|i: int|
                0 <= i < sample_count ==> #[trigger] after.samples[interface].held[i]
                    == samples_in(rounds[rounds.len() - sample_count + i], interface)[0]
        }),
{
    law_keeps_the_latest_samples(period, sample_count, rounds, interface);
    lemma_one_sample_each(rounds, interface);
}

/// A report is due at the end of every `sample_count`-th round, and of no other.
pub proof fn law_reports_every_so_many_rounds(
    period: Duration,
    sample_count: nat,
    rounds: Seq<Round>,
)
    requires
        sample_count > 0,
    ensures
        NetworkView::started(period, sample_count).after_rounds(rounds).reports_next() <==> (
        rounds.len() + 1) % sample_count == 0,
{
    let count = sample_count as int;
    let done = rounds.len() as int;
    lemma_rounds_take_turns(period, sample_count, rounds);
    vstd::arithmetic::div_mod::lemma_add_mod_noop(done, 1, count);
    vstd::arithmetic::div_mod::lemma_add_mod_noop(done % count, 1, count);
    vstd::arithmetic::div_mod::lemma_mod_twice(done, count);
    vstd::arithmetic::div_mod::lemma_mod_bound(done, count);
    if done % count + 1 == count {
        vstd::arithmetic::div_mod::lemma_mod_self_0(count);
    } else {
        vstd::arithmetic::div_mod::lemma_small_mod((done % count + 1) as nat, sample_count);
    }
}

proof fn lemma_rounds_take_turns(period: Duration, sample_count: nat, rounds: Seq<Round>)
    requires
        sample_count > 0,
    ensures
        NetworkView::started(period, sample_count).after_rounds(rounds).sample_count
            == sample_count,
        NetworkView::started(period, sample_count).after_rounds(rounds).round == rounds.len() as int
            % sample_count as int,
    decreases rounds.len(),
{
    let count = sample_count as int;
    if rounds.len() == 0 {
        vstd::arithmetic::div_mod::lemma_small_mod(0, sample_count);
    } else {
        lemma_rounds_take_turns(period, sample_count, rounds.drop_last());
        let done = rounds.len() - 1;
        vstd::arithmetic::div_mod::lemma_add_mod_noop(done, 1, count);
        vstd::arithmetic::div_mod::lemma_add_mod_noop(done % count, 1, count);
        vstd::arithmetic::div_mod::lemma_mod_twice(done, count);
    }
}

/// A report names each interface that was read, once, with as many samples as are held of it.
pub proof fn law_report_names_each_interface(
    report: Seq<(String, Vec<NetworkSample>)>,
    samples: Map<Seq<char>, SamplesView>,
    count: nat,
    interface: Seq<char>,
)
    requires
        is_report(report, samples, count),
        forall|name: Seq<char>| #[trigger]
            samples.contains_key(name) ==> samples[name].held.len() <= count && 0
                <= samples[name].next <= count,
    ensures
        samples.contains_key(interface) <==> exists|i: int|
            0 <= i < report.len() && (#[trigger] report[i]).0@ == interface,
        forall|i: int, j: int|
            0 <= i < report.len() && 0 <= j < report.len() && (#[trigger] report[i]).0@ == (
            #[trigger] report[j]).0@ ==> i == j,
        forall|i: int|
            0 <= i < report.len() ==> (#[trigger] report[i]).1@.len()
                == samples[report[i].0@].held.len(),
{
    assert forall|i: int, j: int|
        0 <= i < report.len() && 0 <= j < report.len() && (#[trigger] report[i]).0@ == (
        #[trigger] report[j]).0@ implies i == j by {
        if i < j {
            assert(report[i].0@ != report[j].0@);
        } else if j < i {
            assert(report[j].0@ != report[i].0@);
        }
    }
}

} // verus!
