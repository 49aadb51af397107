use vstd::prelude::*;
use crate::error::{MigError, MigErrorKind};
use crate::stage2::pairs_view;

verus! {

/// A file system as a map from path to content.
pub struct FileTree {
    pub files: Map<Seq<char>, Seq<u8>>,
}

/// One step of undoing the changes to the boot files.
pub enum RestoreStep {
    /// Copy `from` over `to`.
    Copy { from: String, to: String },
    /// Delete `path`.
    Delete { path: String },
}

/// A restore step as plain values.
pub enum StepView {
    Copy { from: Seq<char>, to: Seq<char> },
    Delete { path: Seq<char> },
}

pub open spec fn step_view(s: RestoreStep) -> StepView {
    match s {
        RestoreStep::Copy { from, to } => StepView::Copy { from: from@, to: to@ },
        RestoreStep::Delete { path } => StepView::Delete { path: path@ },
    }
}

/// The steps that undo the recorded edits `(original, backup)`: the last
/// edit first, each restored by copying its backup over the original and
/// deleting the backup.
pub open spec fn restore_plan(edits: Seq<(Seq<char>, Seq<char>)>) -> Seq<StepView>
    decreases edits.len(),
{
    if edits.len() == 0 {
        seq![]
    } else {
        let (o, b) = edits.last();
        seq![StepView::Copy { from: b, to: o }, StepView::Delete { path: b }] + restore_plan(
            edits.drop_last(),
        )
    }
}

pub open spec fn apply_step(fs: Map<Seq<char>, Seq<u8>>, s: StepView) -> Map<Seq<char>, Seq<u8>> {
    match s {
        StepView::Copy { from, to } => fs.insert(to, fs[from]),
        StepView::Delete { path } => fs.remove(path),
    }
}

pub open spec fn apply_steps(fs: Map<Seq<char>, Seq<u8>>, steps: Seq<StepView>) -> Map<
    Seq<char>,
    Seq<u8>,
>
    decreases steps.len(),
{
    if steps.len() == 0 {
        fs
    } else {
        apply_steps(apply_step(fs, steps[0]), steps.drop_first())
    }
}

/// What installing does to the file system: for each edit in turn, the
/// original is copied to its backup and then replaced by new content.
pub open spec fn apply_install(
    fs: Map<Seq<char>, Seq<u8>>,
    edits: Seq<(Seq<char>, Seq<char>)>,
    news: Seq<Seq<u8>>,
) -> Map<Seq<char>, Seq<u8>>
    decreases edits.len(),
{
    if edits.len() == 0 {
        fs
    } else {
        let f1 = apply_install(fs, edits.drop_last(), news.drop_last());
        let (o, b) = edits.last();
        f1.insert(b, f1[o]).insert(o, news.last())
    }
}

/// The edits can be undone: every original exists, every backup is a new
/// file, the backups are distinct and none of them is an original.
pub open spec fn edits_reversible(fs: Map<Seq<char>, Seq<u8>>, edits: Seq<(Seq<char>, Seq<char>)>) -> bool {
    &&& forall|i: int| 0 <= i < edits.len() ==> fs.contains_key(#[trigger] edits[i].0)
    &&& forall|i: int| 0 <= i < edits.len() ==> !fs.contains_key(#[trigger] edits[i].1)
    &&& forall|i: int, j: int|
        0 <= i < j < edits.len() ==> #[trigger] edits[i].1 != #[trigger] edits[j].1
    &&& forall|i: int, j: int|
        0 <= i < edits.len() && 0 <= j < edits.len() ==> #[trigger] edits[i].1
            != #[trigger] edits[j].0
}

proof fn lemma_steps_concat(fs: Map<Seq<char>, Seq<u8>>, a: Seq<StepView>, b: Seq<StepView>)
    ensures
        apply_steps(fs, a + b) == apply_steps(apply_steps(fs, a), b),
    decreases a.len(),
{
    if a.len() == 0 {
        assert(a + b == b);
    } else {
        assert((a + b).drop_first() == a.drop_first() + b);
        assert((a + b)[0] == a[0]);
        lemma_steps_concat(apply_step(fs, a[0]), a.drop_first(), b);
    }
}

proof fn lemma_install_keys(
    fs: Map<Seq<char>, Seq<u8>>,
    edits: Seq<(Seq<char>, Seq<char>)>,
    news: Seq<Seq<u8>>,
    p: Seq<char>,
)
    requires
        edits_reversible(fs, edits),
    ensures
        apply_install(fs, edits, news).contains_key(p) <==> (fs.contains_key(p) || exists|j: int|
            0 <= j < edits.len() && #[trigger] edits[j].1 == p),
    decreases edits.len(),
{
    if edits.len() > 0 {
        let e = edits.drop_last();
        assert(edits_reversible(fs, e)) by {
            assert forall|i: int| 0 <= i < e.len() implies fs.contains_key(#[trigger] e[i].0) by {
                assert(e[i] == edits[i]);
            }
            assert forall|i: int| 0 <= i < e.len() implies !fs.contains_key(#[trigger] e[i].1) by {
                assert(e[i] == edits[i]);
            }
            assert forall|i: int, j: int| 0 <= i < j < e.len() implies #[trigger] e[i].1
                != #[trigger] e[j].1 by {
                assert(e[i] == edits[i] && e[j] == edits[j]);
            }
            assert forall|i: int, j: int| 0 <= i < e.len() && 0 <= j < e.len() implies #[trigger] e[i].1
                != #[trigger] e[j].0 by {
                assert(e[i] == edits[i] && e[j] == edits[j]);
            }
        }
        lemma_install_keys(fs, e, news.drop_last(), p);
        let n = edits.len() - 1;
        if exists|j: int| 0 <= j < e.len() && #[trigger] e[j].1 == p {
            let j = choose|j: int| 0 <= j < e.len() && #[trigger] e[j].1 == p;
            assert(edits[j].1 == p);
        }
        if exists|j: int| 0 <= j < edits.len() && #[trigger] edits[j].1 == p {
            let j = choose|j: int| 0 <= j < edits.len() && #[trigger] edits[j].1 == p;
            if j < n {
                assert(e[j].1 == p);
            }
        }
        assert(fs.contains_key(edits[n].0));
    }
}

/// Undoing every recorded edit, the last one first, gives back the file
/// system as it was before the run: every replaced file has its old
/// content again and no backup is left behind.
pub proof fn lemma_restore_undoes_install(
    fs: Map<Seq<char>, Seq<u8>>,
    edits: Seq<(Seq<char>, Seq<char>)>,
    news: Seq<Seq<u8>>,
)
    requires
        edits_reversible(fs, edits),
    ensures
        apply_steps(apply_install(fs, edits, news), restore_plan(edits)) == fs,
    decreases edits.len(),
{
    if edits.len() > 0 {
        let e = edits.drop_last();
        let n = edits.len() - 1;
        let (o, b) = edits.last();
        assert(edits_reversible(fs, e)) by {
            assert forall|i: int| 0 <= i < e.len() implies fs.contains_key(#[trigger] e[i].0) by {
                assert(e[i] == edits[i]);
            }
            assert forall|i: int| 0 <= i < e.len() implies !fs.contains_key(#[trigger] e[i].1) by {
                assert(e[i] == edits[i]);
            }
            assert forall|i: int, j: int| 0 <= i < j < e.len() implies #[trigger] e[i].1
                != #[trigger] e[j].1 by {
                assert(e[i] == edits[i] && e[j] == edits[j]);
            }
            assert forall|i: int, j: int| 0 <= i < e.len() && 0 <= j < e.len() implies #[trigger] e[i].1
                != #[trigger] e[j].0 by {
                assert(e[i] == edits[i] && e[j] == edits[j]);
            }
        }
        let f1 = apply_install(fs, e, news.drop_last());
        lemma_install_keys(fs, e, news.drop_last(), o);
        lemma_install_keys(fs, e, news.drop_last(), b);
        assert(edits[n].0 == o && edits[n].1 == b);
        assert(fs.contains_key(o));
        assert(!fs.contains_key(b));
        assert(b != o);
        assert forall|j: int| 0 <= j < e.len() implies #[trigger] e[j].1 != b by {
            assert(e[j] == edits[j]);
        }
        assert(!f1.contains_key(b));
        let installed = f1.insert(b, f1[o]).insert(o, news.last());
        assert(installed == apply_install(fs, edits, news));
        let head = seq![StepView::Copy { from: b, to: o }, StepView::Delete { path: b }];
        assert(restore_plan(edits) == head + restore_plan(e));
        lemma_steps_concat(installed, head, restore_plan(e));
        let after = apply_steps(installed, head);
        assert(after == installed.insert(o, installed[b]).remove(b)) by {
            reveal_with_fuel(apply_steps, 3);
            assert(head[0] == StepView::Copy { from: b, to: o });
            assert(head.drop_first()[0] == StepView::Delete { path: b });
            assert(head.drop_first().drop_first() == Seq::<StepView>::empty());
        }
        assert(after == f1);
        lemma_restore_undoes_install(fs, e, news.drop_last());
    }
}

/// Where an installation stands.
#[derive(Clone, Copy, Debug, PartialEq, Eq, Structural)]
pub enum InstallState {
    Fresh,
    Validated,
    Installing,
    Committed,
    RolledBack,
}

/// What the outside world reports to the installation.
#[derive(Clone, Copy, Debug, PartialEq, Eq, Structural)]
pub enum InstallEvent {
    /// Every check passed.
    Checked,
    /// The first file is about to be copied.
    Started,
    /// A file was copied; whether its digest matched.
    Copied { digest_ok: bool },
    /// A mutation failed with the given kind of error.
    Failed { kind: MigErrorKind },
    /// Every file was copied and verified.
    Finished,
}

/// What the installation asks the outside world to do next.
#[derive(Clone, Copy, Debug, PartialEq, Eq, Structural)]
pub enum InstallAction {
    /// Go on with the next step.
    Continue,
    /// Replay the backups, then report the error.
    Restore { kind: MigErrorKind },
    /// Write the stage-2 record.
    WriteDescriptor,
    /// The event does not fit the state; nothing changes.
    Reject,
}

/// The transitions: a digest mismatch or a failed mutation while
/// installing rolls back; only finishing an installation commits.
pub open spec fn transition(s: InstallState, e: InstallEvent) -> (InstallState, InstallAction) {
    match (s, e) {
        (InstallState::Fresh, InstallEvent::Checked) => (InstallState::Validated, InstallAction::Continue),
        (InstallState::Validated, InstallEvent::Started) => (InstallState::Installing, InstallAction::Continue),
        (InstallState::Installing, InstallEvent::Copied { digest_ok }) => if digest_ok {
            (InstallState::Installing, InstallAction::Continue)
        } else {
            (InstallState::RolledBack, InstallAction::Restore { kind: MigErrorKind::DigestMismatch })
        },
        (InstallState::Installing, InstallEvent::Failed { kind }) => (
            InstallState::RolledBack,
            InstallAction::Restore { kind },
        ),
        (InstallState::Installing, InstallEvent::Finished) => (InstallState::Committed, InstallAction::WriteDescriptor),
        _ => (s, InstallAction::Reject),
    }
}

/// The next state and action of an installation.
pub fn next_state(s: InstallState, e: InstallEvent) -> (r: (InstallState, InstallAction))
    ensures
        r == transition(s, e),
{
    match (s, e) {
        (InstallState::Fresh, InstallEvent::Checked) => (InstallState::Validated, InstallAction::Continue),
        (InstallState::Validated, InstallEvent::Started) => (InstallState::Installing, InstallAction::Continue),
        (InstallState::Installing, InstallEvent::Copied { digest_ok }) => if digest_ok {
            (InstallState::Installing, InstallAction::Continue)
        } else {
            (InstallState::RolledBack, InstallAction::Restore { kind: MigErrorKind::DigestMismatch })
        },
        (InstallState::Installing, InstallEvent::Failed { kind }) => (
            InstallState::RolledBack,
            InstallAction::Restore { kind },
        ),
        (InstallState::Installing, InstallEvent::Finished) => (InstallState::Committed, InstallAction::WriteDescriptor),
        _ => (s, InstallAction::Reject),
    }
}

/// Whether the stage-2 record may be written in state `s`.
pub fn may_write_descriptor(s: InstallState) -> (r: bool)
    ensures
        r == (s == InstallState::Committed),
{
    s == InstallState::Committed
}

/// The state after the events `t`, from `s`.
pub open spec fn run(s: InstallState, t: Seq<InstallEvent>) -> InstallState
    decreases t.len(),
{
    if t.len() == 0 {
        s
    } else {
        run(transition(s, t[0]).0, t.drop_first())
    }
}

/// A rolled-back installation stays rolled back and a committed one stays
/// committed, whatever is reported afterwards: the stage-2 record (written
/// on commit) and the restore (run on roll-back) never both happen.
pub proof fn lemma_outcome_is_final(s: InstallState, t: Seq<InstallEvent>)
    requires
        s == InstallState::RolledBack || s == InstallState::Committed,
    ensures
        run(s, t) == s,
    decreases t.len(),
{
    if t.len() > 0 {
        lemma_outcome_is_final(s, t.drop_first());
    }
}

/// A copy whose digest does not match, while installing, ends the
/// installation rolled back: it is never committed afterwards.
pub proof fn lemma_digest_mismatch_rolls_back(t: Seq<InstallEvent>)
    ensures
        run(InstallState::Installing, seq![InstallEvent::Copied { digest_ok: false }] + t)
            == InstallState::RolledBack,
{
    let u = seq![InstallEvent::Copied { digest_ok: false }] + t;
    assert(u[0] == InstallEvent::Copied { digest_ok: false });
    assert(u.drop_first() == t);
    lemma_outcome_is_final(InstallState::RolledBack, t);
}

/// The steps that undo the recorded backups `(original, backup)`, last
/// first, then delete the files that the migration installed.
pub fn restore_steps(backups: &Vec<(String, String)>, installed: &Vec<String>) -> (r: Vec<RestoreStep>)
    ensures
        r@.map_values(|s: RestoreStep| step_view(s)) == restore_plan(pairs_view(backups@))
            + installed@.map_values(|p: String| StepView::Delete { path: p@ }),
{
    let mut r: Vec<RestoreStep> = Vec::new();
    let mut k: usize = backups.len();
    assert(pairs_view(backups@).subrange(0, k as int) == pairs_view(backups@));
    assert(r@.map_values(|s: RestoreStep| step_view(s)) == Seq::<StepView>::empty());
    while k > 0
        invariant
            k <= backups@.len(),
            r@.map_values(|s: RestoreStep| step_view(s)) + restore_plan(
                pairs_view(backups@).subrange(0, k as int),
            ) == restore_plan(pairs_view(backups@)),
        decreases k,
    {
        let ghost before = r@;
        let (o, b) = (&backups[k - 1].0, &backups[k - 1].1);
        r.push(RestoreStep::Copy { from: b.clone(), to: o.clone() });
        r.push(RestoreStep::Delete { path: b.clone() });
        proof {
            let p = pairs_view(backups@);
            let sub = p.subrange(0, k as int);
            assert(sub.drop_last() == p.subrange(0, k - 1));
            assert(sub.last() == (o@, b@));
            assert(r@.map_values(|s: RestoreStep| step_view(s)) == before.map_values(
                |s: RestoreStep| step_view(s),
            ) + seq![StepView::Copy { from: b@, to: o@ }, StepView::Delete { path: b@ }]);
        }
        k = k - 1;
    }
    assert(pairs_view(backups@).subrange(0, 0) == Seq::<(Seq<char>, Seq<char>)>::empty());
    let ghost plan = r@.map_values(|s: RestoreStep| step_view(s));
    let mut i: usize = 0;
    while i < installed.len()
        invariant
            i <= installed@.len(),
            r@.map_values(|s: RestoreStep| step_view(s)) == plan + installed@.subrange(0, i as int).map_values(
                |p: String| StepView::Delete { path: p@ },
            ),
        decreases installed.len() - i,
    {
        let ghost before = r@;
        let p = installed[i].clone();
        r.push(RestoreStep::Delete { path: p });
        assert(r@.map_values(|s: RestoreStep| step_view(s)) =~= before.map_values(
            |s: RestoreStep| step_view(s),
        ).push(StepView::Delete { path: installed@[i as int]@ }));
        assert(installed@.subrange(0, i + 1).map_values(|p: String| StepView::Delete { path: p@ })
            =~= installed@.subrange(0, i as int).map_values(|p: String| StepView::Delete { path: p@ }).push(
            StepView::Delete { path: installed@[i as int]@ },
        ));
        assert(r@.map_values(|s: RestoreStep| step_view(s)) =~= plan + installed@.subrange(0, i + 1).map_values(
            |p: String| StepView::Delete { path: p@ },
        ));
        i = i + 1;
    }
    assert(installed@.subrange(0, installed@.len() as int) == installed@);
    r
}

} // verus!
