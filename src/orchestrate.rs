use vstd::prelude::*;
use vstd::string::StringExecFns;
use crate::error::LocaleError;
use crate::text::{join_path, joined, views};

verus! {

/// What the host reports of one run of the external translator.
#[derive(Clone, Debug, PartialEq, Eq)]
pub enum Outcome {
    /// The process exited with success.
    Succeeded,
    /// The process exited with failure; carries its captured output.
    Failed(String),
}

/// What the host is to do next for a translation request.
#[derive(Debug, PartialEq, Eq)]
pub enum Step {
    /// Run the external translator from `input` to `output` and report the
    /// outcome.
    Invoke { input: String, output: String },
    /// The request is over, with this result.
    Finished(Result<(), LocaleError>),
}

/// A translation request as it progresses.
pub struct RunModel {
    pub dir: Seq<char>,
    pub input: Seq<char>,
    pub targets: Seq<Seq<char>>,
    /// Index of the target being worked on (or `targets.len()` when all are done).
    pub next: nat,
    /// The captured output of the failed invocation, once one failed.
    pub failure: Option<Seq<char>>,
}

/// The next step of a request, in the abstract.
pub enum Action {
    Invoke { input: Seq<char>, output: Seq<char> },
    Done,
    Fail { target: Seq<char>, diagnostic: Seq<char> },
}

/// The targets of a request, each kept once, at its first place.
pub open spec fn distinct_targets(targets: Seq<Seq<char>>) -> Seq<Seq<char>> {
    targets.remove_duplicates(Seq::empty())
}

/// A request that has not yet invoked anything.
pub open spec fn model_start(dir: Seq<char>, source: Seq<char>, targets: Seq<Seq<char>>) -> RunModel {
    RunModel {
        dir,
        input: joined(dir, source),
        targets: distinct_targets(targets),
        next: 0,
        failure: None,
    }
}

/// Whether a request waits for the outcome of an invocation.
pub open spec fn is_running(m: RunModel) -> bool {
    m.failure is None && m.next < m.targets.len()
}

/// The next step: the first failure ends the request, else the next target
/// is invoked, else the request has succeeded.
pub open spec fn model_step(m: RunModel) -> Action {
    match m.failure {
        Some(d) => Action::Fail { target: m.targets[m.next as int], diagnostic: d },
        None => if m.next < m.targets.len() {
            Action::Invoke { input: m.input, output: joined(m.dir, m.targets[m.next as int]) }
        } else {
            Action::Done
        },
    }
}

/// The request after an outcome: `None` for success, else the captured output.
pub open spec fn model_record(m: RunModel, outcome: Option<Seq<char>>) -> RunModel {
    match outcome {
        None => RunModel { next: m.next + 1, ..m },
        Some(d) => RunModel { failure: Some(d), ..m },
    }
}

pub open spec fn outcome_view(o: Outcome) -> Option<Seq<char>> {
    match o {
        Outcome::Succeeded => None,
        Outcome::Failed(d) => Some(d@),
    }
}

/// Whether an executable step is the abstract one.
pub open spec fn step_is(s: Step, a: Action) -> bool {
    match a {
        Action::Invoke { input, output } => s matches Step::Invoke { input: i, output: o } && i@
            == input && o@ == output,
        Action::Done => s matches Step::Finished(Ok(())),
        Action::Fail { target, diagnostic } => s matches Step::Finished(
            Err(LocaleError::TranslationFailed { target: t, diagnostic: d }),
        ) && t@ == target && d@ == diagnostic,
    }
}

/// Drives one translation request: source file, target files in the
/// caller's order, one external invocation at a time, stopping at the first
/// failure. Target files need not exist: the translator creates them.
pub struct TranslationRun {
    dir: String,
    input: String,
    targets: Vec<String>,
    next: usize,
    failure: Option<String>,
}

impl View for TranslationRun {
    type V = RunModel;

    closed spec fn view(&self) -> RunModel {
        RunModel {
            dir: self.dir@,
            input: self.input@,
            targets: views(self.targets@),
            next: self.next as nat,
            failure: match self.failure {
                Some(d) => Some(d@),
                None => None,
            },
        }
    }
}

fn contains_name(v: &Vec<String>, x: &String) -> (r: bool)
    ensures
        r == views(v@).contains(x@),
{
    let mut i: usize = 0;
    while i < v.len()
        invariant
            i <= v.len(),
            forall|k: int| 0 <= k < i ==> v@[k]@ != x@,
        decreases v.len() - i,
    {
        if v[i] == *x {
            assert(views(v@)[i as int] == x@);
            return true;
        }
        i = i + 1;
    }
    assert(!views(v@).contains(x@)) by {
        if views(v@).contains(x@) {
            let k = choose|k: int| 0 <= k < views(v@).len() && views(v@)[k] == x@;
            assert(v@[k]@ == x@);
        }
    }
    false
}

/// `targets` with later repetitions left out.
fn dedup_targets(targets: Vec<String>) -> (r: Vec<String>)
    ensures
        views(r@) == distinct_targets(views(targets@)),
{
    let mut out: Vec<String> = Vec::new();
    let mut i: usize = 0;
    let ghost all = views(targets@);
    assert(all.skip(0) =~= all);
    assert(views(out@) =~= Seq::<Seq<char>>::empty());
    while i < targets.len()
        invariant
            i <= targets.len(),
            all == views(targets@),
            distinct_targets(all) == all.skip(i as int).remove_duplicates(views(out@)),
        decreases targets.len() - i,
    {
        let t = &targets[i];
        assert(all.skip(i as int)[0] == t@);
        assert(all.skip(i as int).skip(1) =~= all.skip(i + 1));
        if !contains_name(&out, t) {
            let ghost before = views(out@);
            out.push(t.clone());
            assert(views(out@) =~= before + seq![t@]);
        }
        i = i + 1;
    }
    assert(all.skip(i as int) =~= Seq::<Seq<char>>::empty());
    out
}

impl TranslationRun {
    pub closed spec fn wf(&self) -> bool {
        &&& self.next <= self.targets@.len()
        &&& self.failure is Some ==> self.next < self.targets@.len()
    }

    /// A request to translate `dir/source` into `dir/t` for each target `t`,
    /// in the given order, each distinct target once.
    pub fn new(dir: &str, source: &str, targets: Vec<String>) -> (r: TranslationRun)
        ensures
            r.wf(),
            r@ == model_start(dir@, source@, views(targets@)),
    {
        TranslationRun {
            dir: String::from_str(dir),
            input: join_path(dir, source),
            targets: dedup_targets(targets),
            next: 0,
            failure: None,
        }
    }

    /// What the host is to do next.
    pub fn next_step(&self) -> (s: Step)
        requires
            self.wf(),
        ensures
            step_is(s, model_step(self@)),
    {
        match &self.failure {
            Some(d) => Step::Finished(
                Err(
                    LocaleError::TranslationFailed {
                        target: self.targets[self.next].clone(),
                        diagnostic: d.clone(),
                    },
                ),
            ),
            None => {
                if self.next < self.targets.len() {
                    Step::Invoke {
                        input: self.input.clone(),
                        output: join_path(self.dir.as_str(), self.targets[self.next].as_str()),
                    }
                } else {
                    Step::Finished(Ok(()))
                }
            },
        }
    }

    /// Takes the outcome of the invocation that [`Self::next_step`] asked for.
    pub fn record(&mut self, outcome: Outcome)
        requires
            old(self).wf(),
            is_running(old(self)@),
        ensures
            final(self).wf(),
            final(self)@ == model_record(old(self)@, outcome_view(outcome)),
    {
        match outcome {
            Outcome::Succeeded => {
                let n = self.targets.len();
                assert(views(self.targets@).len() == n);
                self.next = self.next + 1;
            },
            Outcome::Failed(d) => {
                self.failure = Some(d);
            },
        }
    }
}

/// The external translator's executable, looked up on the `PATH`.
pub open spec fn translator_program_name() -> Seq<char> {
    "shopify-locale-translator-cli"@
}

/// The arguments that run the external translator from `input` to `output`:
/// the two paths are separate arguments, handed over as they are, with no
/// shell in between.
pub open spec fn translator_arguments(input: Seq<char>, output: Seq<char>) -> Seq<Seq<char>> {
    seq!["translate"@, "-i"@, input, "-o"@, output]
}

pub fn translator_program() -> (r: String)
    ensures
        r@ == translator_program_name(),
{
    String::from_str("shopify-locale-translator-cli")
}

pub fn translator_args(input: &str, output: &str) -> (r: Vec<String>)
    ensures
        views(r@) == translator_arguments(input@, output@),
{
    let mut r: Vec<String> = Vec::new();
    r.push(String::from_str("translate"));
    r.push(String::from_str("-i"));
    r.push(String::from_str(input));
    r.push(String::from_str("-o"));
    r.push(String::from_str(output));
    assert(views(r@) =~= translator_arguments(input@, output@));
    r
}

/// A request with no targets succeeds at once, without invoking anything.
pub proof fn lemma_empty_request(dir: Seq<char>, source: Seq<char>)
    ensures
        model_step(model_start(dir, source, Seq::empty())) == Action::Done,
        !is_running(model_start(dir, source, Seq::empty())),
{
    assert(distinct_targets(Seq::<Seq<char>>::empty()) =~= Seq::<Seq<char>>::empty());
}

/// A failed invocation ends the request: no later target is invoked, and the
/// failure names the target that failed, with its output.
pub proof fn lemma_failure_ends_request(m: RunModel, diagnostic: Seq<char>)
    requires
        is_running(m),
    ensures
        !is_running(model_record(m, Some(diagnostic))),
        model_step(model_record(m, Some(diagnostic))) == (Action::Fail {
            target: m.targets[m.next as int],
            diagnostic,
        }),
{
}

/// With targets `[a, b]`, the first invocation is for `a`; when it fails the
/// request ends with a failure attributed to `a` and `b` is never invoked.
pub proof fn lemma_first_of_two_fails(
    dir: Seq<char>,
    source: Seq<char>,
    a: Seq<char>,
    b: Seq<char>,
    diagnostic: Seq<char>,
)
    ensures
        model_step(model_start(dir, source, seq![a, b])) == (Action::Invoke {
            input: joined(dir, source),
            output: joined(dir, a),
        }),
        !is_running(model_record(model_start(dir, source, seq![a, b]), Some(diagnostic))),
        model_step(model_record(model_start(dir, source, seq![a, b]), Some(diagnostic))) == (
        Action::Fail { target: a, diagnostic }),
{
    let t = seq![a, b];
    let e = Seq::<Seq<char>>::empty();
    assert(t.skip(1) =~= seq![b]);
    assert(seq![b].skip(1) =~= e);
    assert(e + seq![a] =~= seq![a]);
    let d = distinct_targets(t);
    assert(!e.contains(a));
    assert(t[0] == a);
    assert(d == t.skip(1).remove_duplicates(e + seq![a]));
    assert(d == seq![b].remove_duplicates(seq![a]));
    assert(d.len() > 0 && d[0] == a) by {
        if a == b {
            assert(seq![a][0] == b);
            assert(seq![a].contains(b));
            assert(d == seq![b].remove_duplicates(seq![a]));
            assert(d == e.remove_duplicates(seq![a]));
        } else {
            assert(!seq![a].contains(b));
            assert(seq![b][0] == b);
            assert(seq![a] + seq![b] =~= seq![a, b]);
            assert(d == seq![b].skip(1).remove_duplicates(seq![a] + seq![b]));
            assert(d == e.remove_duplicates(seq![a, b]));
        }
    }
}

} // verus!
