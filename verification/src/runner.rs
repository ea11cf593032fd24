//! The measurement protocol for one file: some parses to warm up, then the
//! timed parses, then the summary.
//!
//! Parsing and reading the clock are the caller's part. A `Runner` says what
//! to do next, takes what came of it, and in the end hands out the result.

use vstd::prelude::*;
use crate::order::key_of;
use crate::serialize::{document_text, dom_to_test_format};
use crate::tree::{Node, NodeView};

verus! {

/// How many parses come before the timed ones: one, and one more for every
/// ten timed parses, but never more than three.
pub open spec fn warmup_count(iterations: nat) -> nat {
    if iterations / 10 + 1 < 3 {
        iterations / 10 + 1
    } else {
        3
    }
}

/// The number of warmup parses that go with `iterations` timed parses.
pub fn warmup_iterations(iterations: usize) -> (warmups: usize)
    ensures
        warmups == warmup_count(iterations as nat),
{
    let by_count = iterations / 10 + 1;
    if by_count < 3 {
        by_count
    } else {
        3
    }
}

/// The sum of the samples.
pub open spec fn sum_of(samples: Seq<u64>) -> nat
    decreases samples.len(),
{
    if samples.len() == 0 {
        0
    } else {
        sum_of(samples.drop_last()) + samples.last() as nat
    }
}

/// `least` is one of the samples, and none is smaller.
pub open spec fn is_min_of(samples: Seq<u64>, least: u64) -> bool {
    &&& exists|i: int| 0 <= i < samples.len() && samples[i] == least
    &&& forall|i: int| 0 <= i < samples.len() ==> least <= samples[i]
}

/// `greatest` is one of the samples, and none is larger.
pub open spec fn is_max_of(samples: Seq<u64>, greatest: u64) -> bool {
    &&& exists|i: int| 0 <= i < samples.len() && samples[i] == greatest
    &&& forall|i: int| 0 <= i < samples.len() ==> samples[i] <= greatest
}

/// What the samples of one file come to, in nanoseconds.
#[derive(Clone, Copy, Debug)]
pub struct Summary {
    pub total_nanos: u128,
    pub min_nanos: u64,
    pub max_nanos: u64,
}

proof fn lemma_sum_bound(samples: Seq<u64>)
    ensures
        sum_of(samples) <= samples.len() * 0xffff_ffff_ffff_ffff,
    decreases samples.len(),
{
    if samples.len() > 0 {
        lemma_sum_bound(samples.drop_last());
        assert((samples.len() - 1) * 0xffff_ffff_ffff_ffff + 0xffff_ffff_ffff_ffff == samples.len()
            * 0xffff_ffff_ffff_ffff) by (nonlinear_arith);
    }
}

/// Adds up the samples and finds the smallest and the largest.
pub fn summarize(samples: &Vec<u64>) -> (summary: Summary)
    requires
        samples@.len() > 0,
    ensures
        summary.total_nanos == sum_of(samples@),
        is_min_of(samples@, summary.min_nanos),
        is_max_of(samples@, summary.max_nanos),
{
    let mut total: u128 = samples[0] as u128;
    let mut least = samples[0];
    let mut greatest = samples[0];
    let mut i: usize = 1;
    assert(sum_of(samples@.take(1)) == samples@[0]) by {
        assert(samples@.take(1).drop_last() =~= Seq::<u64>::empty());
        assert(sum_of(samples@.take(1).drop_last()) == 0);
    }
    while i < samples.len()
        invariant
            1 <= i <= samples@.len(),
            total == sum_of(samples@.take(i as int)),
            is_min_of(samples@.take(i as int), least),
            is_max_of(samples@.take(i as int), greatest),
        decreases samples.len() - i,
    {
        let sample = samples[i];
        proof {
            let seen = samples@.take(i as int);
            let next = samples@.take(i + 1);
            assert(next.drop_last() =~= seen);
            assert(next.last() == sample);
            lemma_sum_bound(next);
            assert(next.len() * 0xffff_ffff_ffff_ffff <= 0xffff_ffff_ffff_ffff
                * 0xffff_ffff_ffff_ffff) by (nonlinear_arith)
                requires
                    next.len() <= 0xffff_ffff_ffff_ffff,
            ;
            let at_least = choose|j: int| 0 <= j < seen.len() && seen[j] == least;
            let at_greatest = choose|j: int| 0 <= j < seen.len() && seen[j] == greatest;
            assert(next[at_least] == least);
            assert(next[at_greatest] == greatest);
            assert(next[i as int] == sample);
            assert forall|j: int| 0 <= j < next.len() implies (if sample < least {
                sample
            } else {
                least
            }) <= next[j] by {
                if j < i {
                    assert(next[j] == seen[j]);
                }
            }
            assert forall|j: int| 0 <= j < next.len() implies next[j] <= (if sample > greatest {
                sample
            } else {
                greatest
            }) by {
                if j < i {
                    assert(next[j] == seen[j]);
                }
            }
        }
        total = total + sample as u128;
        if sample < least {
            least = sample;
        }
        if sample > greatest {
            greatest = sample;
        }
        i += 1;
    }
    assert(samples@.take(i as int) =~= samples@);
    Summary { total_nanos: total, min_nanos: least, max_nanos: greatest }
}

/// What the caller of a `Runner` is to do next.
#[derive(Clone, Copy, Debug, PartialEq, Eq, Structural)]
pub enum Step {
    /// Parse once and drop the tree; then report with `record_warmup`.
    Warmup,
    /// Parse once under the clock and drop the tree; then report with
    /// `record_sample`.
    Measure,
    /// Parse once under the clock and keep the tree: this is the last parse.
    /// Then report with `record_last_sample`.
    MeasureLast,
    /// All parses are done: take the result with `finish`.
    Finish,
}

/// The result for one file. Durations are in nanoseconds.
#[derive(Debug)]
pub struct Measurement {
    pub file: String,
    pub size_bytes: usize,
    pub iterations: usize,
    pub total_nanos: u128,
    pub min_nanos: u64,
    pub max_nanos: u64,
    /// The canonical text of the tree that the last timed parse gave.
    pub output: String,
}

impl Clone for Measurement {
    fn clone(&self) -> (copy: Measurement)
        ensures
            copy == *self,
    {
        Measurement {
            file: self.file.clone(),
            size_bytes: self.size_bytes,
            iterations: self.iterations,
            total_nanos: self.total_nanos,
            min_nanos: self.min_nanos,
            max_nanos: self.max_nanos,
            output: self.output.clone(),
        }
    }
}

/// The state of the measurement of one file.
pub struct Runner {
    file: String,
    size_bytes: usize,
    iterations: usize,
    warmups_done: usize,
    samples: Vec<u64>,
    last_tree: Option<Node>,
}

/// The mathematical value of a `Runner`.
pub struct RunnerView {
    pub file: Seq<char>,
    /// The length in bytes of the file's content.
    pub size_bytes: nat,
    /// How many timed parses the run is to have.
    pub iterations: nat,
    pub warmups_done: nat,
    /// The durations of the timed parses so far, in the order they were made.
    pub samples: Seq<u64>,
    /// The tree of the last timed parse, once that is made.
    pub last_tree: Option<NodeView>,
}

impl RunnerView {
    /// The state before any parse.
    pub open spec fn initial(file: Seq<char>, size_bytes: nat, iterations: nat) -> RunnerView {
        RunnerView {
            file,
            size_bytes,
            iterations,
            warmups_done: 0,
            samples: Seq::empty(),
            last_tree: None,
        }
    }

    /// What holds of every state that a run can reach.
    pub open spec fn well_formed(self) -> bool {
        &&& self.iterations >= 1
        &&& self.warmups_done <= warmup_count(self.iterations)
        &&& self.samples.len() <= self.iterations
        &&& self.samples.len() > 0 ==> self.warmups_done == warmup_count(self.iterations)
        &&& self.samples.len() == self.iterations ==> self.last_tree is Some
    }

    /// What is to be done in this state: the warmup parses first, then the
    /// timed ones, of which the last is the one whose tree is kept, then
    /// nothing more.
    pub open spec fn next_step(self) -> Step {
        if self.warmups_done < warmup_count(self.iterations) {
            Step::Warmup
        } else if self.samples.len() + 1 < self.iterations {
            Step::Measure
        } else if self.samples.len() < self.iterations {
            Step::MeasureLast
        } else {
            Step::Finish
        }
    }

    /// The state after one more warmup parse.
    pub open spec fn after_warmup(self) -> RunnerView {
        RunnerView { warmups_done: self.warmups_done + 1, ..self }
    }

    /// The state after one more timed parse, which took `elapsed_nanos`.
    pub open spec fn after_sample(self, elapsed_nanos: u64) -> RunnerView {
        RunnerView { samples: self.samples.push(elapsed_nanos), ..self }
    }

    /// The state after the last timed parse, which took `elapsed_nanos` and
    /// gave `tree`.
    pub open spec fn after_last_sample(self, elapsed_nanos: u64, tree: NodeView) -> RunnerView {
        RunnerView { samples: self.samples.push(elapsed_nanos), last_tree: Some(tree), ..self }
    }

    /// How many parses are still to be made.
    pub open spec fn parses_left(self) -> int {
        (warmup_count(self.iterations) - self.warmups_done) + (self.iterations
            - self.samples.len())
    }
}

impl View for Runner {
    type V = RunnerView;

    closed spec fn view(&self) -> RunnerView {
        RunnerView {
            file: self.file@,
            size_bytes: self.size_bytes as nat,
            iterations: self.iterations as nat,
            warmups_done: self.warmups_done as nat,
            samples: self.samples@,
            last_tree: match self.last_tree {
                Some(tree) => Some(tree@),
                None => None,
            },
        }
    }
}

impl Runner {
    #[verifier::type_invariant]
    spec fn inv(self) -> bool {
        self@.well_formed()
    }

    /// Starts the measurement of the file named `file`, whose content is
    /// `html`, with `iterations` timed parses. The size that the result will
    /// show is the length of the content in bytes.
    pub fn new(file: String, html: &str, iterations: usize) -> (runner: Runner)
        requires
            iterations >= 1,
        ensures
            runner@ == RunnerView::initial(file@, key_of(html@).len(), iterations as nat),
            runner@.well_formed(),
    {
        Runner {
            file,
            size_bytes: html.as_bytes().len(),
            iterations,
            warmups_done: 0,
            samples: Vec::new(),
            last_tree: None,
        }
    }

    /// What is to be done next.
    pub fn next_step(&self) -> (step: Step)
        ensures
            step == self@.next_step(),
            self@.well_formed(),
    {
        proof {
            use_type_invariant(self);
        }
        let made = self.samples.len();
        if self.warmups_done < warmup_iterations(self.iterations) {
            Step::Warmup
        } else if made < self.iterations - 1 {
            Step::Measure
        } else if made < self.iterations {
            Step::MeasureLast
        } else {
            Step::Finish
        }
    }

    /// Takes note that one warmup parse was made.
    pub fn record_warmup(&mut self)
        requires
            old(self)@.next_step() == Step::Warmup,
        ensures
            final(self)@ == old(self)@.after_warmup(),
            final(self)@.well_formed(),
    {
        proof {
            use_type_invariant(&*self);
        }
        self.warmups_done = self.warmups_done + 1;
    }

    /// Takes the duration of one timed parse that is not the last.
    pub fn record_sample(&mut self, elapsed_nanos: u64)
        requires
            old(self)@.next_step() == Step::Measure,
        ensures
            final(self)@ == old(self)@.after_sample(elapsed_nanos),
            final(self)@.well_formed(),
    {
        proof {
            use_type_invariant(&*self);
        }
        let mut samples: Vec<u64> = Vec::new();
        std::mem::swap(&mut samples, &mut self.samples);
        samples.push(elapsed_nanos);
        self.samples = samples;
    }

    /// Takes the outcome of the last timed parse: how long it took, and the
    /// tree it gave.
    pub fn record_last_sample(&mut self, elapsed_nanos: u64, tree: Node)
        requires
            old(self)@.next_step() == Step::MeasureLast,
        ensures
            final(self)@ == old(self)@.after_last_sample(elapsed_nanos, tree@),
            final(self)@.well_formed(),
    {
        proof {
            use_type_invariant(&*self);
        }
        let mut samples: Vec<u64> = Vec::new();
        std::mem::swap(&mut samples, &mut self.samples);
        samples.push(elapsed_nanos);
        self.last_tree = Some(tree);
        self.samples = samples;
    }

    /// Ends the run: sums up the samples and writes out the tree of the last
    /// timed parse.
    pub fn finish(self) -> (result: Measurement)
        requires
            self@.next_step() == Step::Finish,
        ensures
            result.file@ == self@.file,
            result.size_bytes == self@.size_bytes,
            result.iterations == self@.iterations,
            self@.samples.len() == self@.iterations,
            result.total_nanos == sum_of(self@.samples),
            is_min_of(self@.samples, result.min_nanos),
            is_max_of(self@.samples, result.max_nanos),
            self@.last_tree is Some,
            result.output@ == document_text(self@.last_tree->0),
    {
        proof {
            use_type_invariant(&self);
        }
        let summary = summarize(&self.samples);
        let output = match &self.last_tree {
            Some(tree) => dom_to_test_format(tree),
            None => String::new(),
        };
        Measurement {
            file: self.file,
            size_bytes: self.size_bytes,
            iterations: self.iterations,
            total_nanos: summary.total_nanos,
            min_nanos: summary.min_nanos,
            max_nanos: summary.max_nanos,
            output,
        }
    }
}

/// A run has exactly as many parses as its warmups and its timed parses come
/// to: every step takes one off what is left, and the run is at its end when,
/// and only when, nothing is left. The tree is asked for when, and only when,
/// one parse is left.
pub proof fn lemma_every_step_counts(state: RunnerView, elapsed_nanos: u64, tree: NodeView)
    requires
        state.well_formed(),
    ensures
        RunnerView::initial(state.file, state.size_bytes, state.iterations).parses_left()
            == warmup_count(state.iterations) + state.iterations,
        state.parses_left() >= 0,
        state.next_step() == Step::Finish <==> state.parses_left() == 0,
        state.next_step() == Step::MeasureLast <==> state.parses_left() == 1,
        state.next_step() == Step::Warmup ==> state.after_warmup().well_formed()
            && state.after_warmup().parses_left() == state.parses_left() - 1,
        state.next_step() == Step::Measure ==> state.after_sample(elapsed_nanos).well_formed()
            && state.after_sample(elapsed_nanos).parses_left() == state.parses_left() - 1,
        state.next_step() == Step::MeasureLast ==> state.after_last_sample(
            elapsed_nanos,
            tree,
        ).well_formed() && state.after_last_sample(elapsed_nanos, tree).parses_left() == 0,
{
}

/// The results of a run over a corpus, in the order in which they came in.
pub struct Report {
    pub results: Vec<Measurement>,
}

impl Report {
    /// A report without results.
    pub fn new() -> (report: Report)
        ensures
            report.results@ == Seq::<Measurement>::empty(),
    {
        Report { results: Vec::new() }
    }

    /// Adds a result behind those that are there. Nothing is moved or left out.
    pub fn push(&mut self, result: Measurement)
        ensures
            final(self).results@ == old(self).results@.push(result),
    {
        self.results.push(result);
    }
}

} // verus!
