use vstd::prelude::*;
use vstd::string::StringExecFns;

verus! {

/// Where the watch over a download folder stands.
#[derive(Clone, Copy, Debug, PartialEq, Eq, Structural)]
pub enum WatchState {
    /// The folder has not been looked for yet.
    Start,
    /// The folder was there at the last look.
    Watching,
    /// The watch is over.
    Done,
}

/// What the watch asks its runner to do after a look at the folder.
#[derive(Clone, Copy, Debug, PartialEq, Eq, Structural)]
pub enum WatchAction {
    /// The folder was missing at the first look: say so and stop.
    ReportMissing,
    /// Sleep for one poll interval, then look again.
    Wait,
    /// The download is over: shut the machine down.
    Shutdown,
    /// Nothing more to do.
    Stop,
}

/// One look at the folder: `present` says whether it was there.
pub open spec fn next(s: WatchState, present: bool) -> (WatchState, WatchAction) {
    match s {
        WatchState::Start => if present {
            (WatchState::Watching, WatchAction::Wait)
        } else {
            (WatchState::Done, WatchAction::ReportMissing)
        },
        WatchState::Watching => if present {
            (WatchState::Watching, WatchAction::Wait)
        } else {
            (WatchState::Done, WatchAction::Shutdown)
        },
        WatchState::Done => (WatchState::Done, WatchAction::Stop),
    }
}

/// Decides what follows a look at the folder.
pub fn watch_step(s: WatchState, present: bool) -> (r: (WatchState, WatchAction))
    ensures
        r == next(s, present),
{
    match s {
        WatchState::Start => if present {
            (WatchState::Watching, WatchAction::Wait)
        } else {
            (WatchState::Done, WatchAction::ReportMissing)
        },
        WatchState::Watching => if present {
            (WatchState::Watching, WatchAction::Wait)
        } else {
            (WatchState::Done, WatchAction::Shutdown)
        },
        WatchState::Done => (WatchState::Done, WatchAction::Stop),
    }
}

/// The actions of a watch from state `s` over the looks `looks`.
pub open spec fn run(s: WatchState, looks: Seq<bool>) -> Seq<WatchAction>
    decreases looks.len(),
{
    if looks.len() == 0 {
        Seq::empty()
    } else {
        let (n, a) = next(s, looks[0]);
        seq![a] + run(n, looks.drop_first())
    }
}

/// How many shutdowns `acts` holds.
pub open spec fn shutdowns(acts: Seq<WatchAction>) -> nat
    decreases acts.len(),
{
    if acts.len() == 0 {
        0
    } else {
        (if acts[0] == WatchAction::Shutdown {
            1nat
        } else {
            0nat
        }) + shutdowns(acts.drop_first())
    }
}

proof fn lemma_done_is_quiet(looks: Seq<bool>)
    ensures
        shutdowns(run(WatchState::Done, looks)) == 0,
    decreases looks.len(),
{
    if looks.len() > 0 {
        let r = run(WatchState::Done, looks);
        assert(r.drop_first() =~= run(WatchState::Done, looks.drop_first()));
        lemma_done_is_quiet(looks.drop_first());
    }
}

proof fn lemma_watching(looks: Seq<bool>)
    ensures
        shutdowns(run(WatchState::Watching, looks)) == if exists|i: int|
            0 <= i < looks.len() && !#[trigger] looks[i] {
            1nat
        } else {
            0nat
        },
    decreases looks.len(),
{
    if looks.len() > 0 {
        let rest = looks.drop_first();
        let (n, a) = next(WatchState::Watching, looks[0]);
        let r = run(WatchState::Watching, looks);
        assert(r.drop_first() =~= run(n, rest));
        if looks[0] {
            lemma_watching(rest);
            if exists|i: int| 0 <= i < looks.len() && !#[trigger] looks[i] {
                let i = choose|i: int| 0 <= i < looks.len() && !#[trigger] looks[i];
                assert(!rest[i - 1]);
            }
            if exists|i: int| 0 <= i < rest.len() && !#[trigger] rest[i] {
                let i = choose|i: int| 0 <= i < rest.len() && !#[trigger] rest[i];
                assert(!looks[i + 1]);
            }
        } else {
            lemma_done_is_quiet(rest);
        }
    }
}

/// A watch that starts with the folder present and later sees it gone
/// shuts the machine down exactly once; otherwise it never does.
pub proof fn lemma_shutdown_exactly_once(looks: Seq<bool>)
    ensures
        shutdowns(run(WatchState::Start, looks)) == if looks.len() > 0 && looks[0] && exists|i: int|
            1 <= i < looks.len() && !#[trigger] looks[i] {
            1nat
        } else {
            0nat
        },
{
    if looks.len() > 0 {
        let rest = looks.drop_first();
        let (n, a) = next(WatchState::Start, looks[0]);
        let r = run(WatchState::Start, looks);
        assert(r.drop_first() =~= run(n, rest));
        if looks[0] {
            lemma_watching(rest);
            if exists|i: int| 1 <= i < looks.len() && !#[trigger] looks[i] {
                let i = choose|i: int| 1 <= i < looks.len() && !#[trigger] looks[i];
                assert(!rest[i - 1]);
            }
            if exists|i: int| 0 <= i < rest.len() && !#[trigger] rest[i] {
                let i = choose|i: int| 0 <= i < rest.len() && !#[trigger] rest[i];
                assert(!looks[i + 1]);
            }
        } else {
            lemma_done_is_quiet(rest);
        }
    }
}

/// Whether `name` is among `entries`.
pub fn contains_name(entries: &Vec<String>, name: &String) -> (r: bool)
    ensures
        r == exists|i: int| 0 <= i < entries@.len() && (#[trigger] entries@[i])@ == name@,
{
    let mut i: usize = 0;
    while i < entries.len()
        invariant
            0 <= i <= entries@.len(),
            forall|j: int| 0 <= j < i ==> (#[trigger] entries@[j])@ != name@,
        decreases entries@.len() - i,
    {
        if entries[i] == *name {
            return true;
        }
        i = i + 1;
    }
    false
}

/// One line of the list of pending downloads: the folder, then the name.
pub fn listing_line(folder: &str, name: &str) -> (r: String)
    ensures
        r@ == folder@ + " - "@ + name@ + "\n"@,
{
    let mut line = String::from_str(folder);
    line.append(" - ");
    line.append(name);
    line.append("\n");
    line
}

} // verus!
