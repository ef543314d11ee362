//! Restoring a save snapshot as a transaction: the steps, what each failure
//! leads to, and the guarantee that a failed restore leaves the save folder
//! as it was.
use vstd::prelude::*;

verus! {

/// The next step of a restore; each names the action to perform next.
#[derive(Debug)]
pub enum RestoreStage {
    /// Check that the save folder has a parent folder.
    CheckParent,
    /// Create the parent folder if needed.
    PrepareParent,
    /// Choose the staging folder's name next to the save folder.
    NameStaging,
    /// Create the staging folder.
    CreateStaging,
    /// Extract the snapshot into the staging folder.
    Extract,
    /// Ask whether the save folder exists (for the safety snapshot).
    CheckBeforeSnapshot,
    /// Create the backups folder.
    PrepareBackups,
    /// Snapshot the current save folder into the backups folder.
    Snapshot,
    /// Choose the name the current save folder is moved aside to.
    NamePrevious,
    /// Ask whether the save folder exists (to move it aside).
    CheckBeforeMove,
    /// Move the current save folder aside.
    MoveAside,
    /// Move the staging folder into place; `had_existing` when the old save
    /// folder was moved aside.
    Apply { had_existing: bool },
    /// Move the old save folder back into place, then fail with the message.
    PutBack(String),
    /// Remove the staging folder, then fail with the message.
    DiscardStaging(String),
    /// Remove the old save folder that was moved aside.
    DiscardPrevious,
    /// The restore is over.
    Done(Result<(), String>),
}

/// A restore stage, with its messages as text.
pub enum StageView {
    CheckParent,
    PrepareParent,
    NameStaging,
    CreateStaging,
    Extract,
    CheckBeforeSnapshot,
    PrepareBackups,
    Snapshot,
    NamePrevious,
    CheckBeforeMove,
    MoveAside,
    Apply { had_existing: bool },
    PutBack(Seq<char>),
    DiscardStaging(Seq<char>),
    DiscardPrevious,
    Failed(Seq<char>),
    Finished,
}

impl RestoreStage {
    pub open spec fn view_of(self) -> StageView {
        match self {
            RestoreStage::CheckParent => StageView::CheckParent,
            RestoreStage::PrepareParent => StageView::PrepareParent,
            RestoreStage::NameStaging => StageView::NameStaging,
            RestoreStage::CreateStaging => StageView::CreateStaging,
            RestoreStage::Extract => StageView::Extract,
            RestoreStage::CheckBeforeSnapshot => StageView::CheckBeforeSnapshot,
            RestoreStage::PrepareBackups => StageView::PrepareBackups,
            RestoreStage::Snapshot => StageView::Snapshot,
            RestoreStage::NamePrevious => StageView::NamePrevious,
            RestoreStage::CheckBeforeMove => StageView::CheckBeforeMove,
            RestoreStage::MoveAside => StageView::MoveAside,
            RestoreStage::Apply { had_existing } => StageView::Apply { had_existing },
            RestoreStage::PutBack(m) => StageView::PutBack(m@),
            RestoreStage::DiscardStaging(m) => StageView::DiscardStaging(m@),
            RestoreStage::DiscardPrevious => StageView::DiscardPrevious,
            RestoreStage::Done(Ok(())) => StageView::Finished,
            RestoreStage::Done(Err(m)) => StageView::Failed(m@),
        }
    }
}

/// The stage after `s`, whose action succeeded (`ok`; for the two checks:
/// the save folder exists) or failed with `detail`.
pub open spec fn next_view(s: StageView, ok: bool, detail: Seq<char>) -> StageView {
    match s {
        StageView::CheckParent => if ok {
            StageView::PrepareParent
        } else {
            StageView::Failed("Save folder has no parent directory"@)
        },
        StageView::PrepareParent => if ok {
            StageView::NameStaging
        } else {
            StageView::Failed("Could not prepare save folder: "@ + detail)
        },
        StageView::NameStaging => if ok {
            StageView::CreateStaging
        } else {
            StageView::Failed(detail)
        },
        StageView::CreateStaging => if ok {
            StageView::Extract
        } else {
            StageView::Failed("Could not create restore staging folder: "@ + detail)
        },
        StageView::Extract => if ok {
            StageView::CheckBeforeSnapshot
        } else {
            StageView::DiscardStaging("Backup could not be extracted safely: "@ + detail)
        },
        StageView::CheckBeforeSnapshot => if ok {
            StageView::PrepareBackups
        } else {
            StageView::NamePrevious
        },
        StageView::PrepareBackups => if ok {
            StageView::Snapshot
        } else {
            StageView::DiscardStaging("Could not prepare backup folder: "@ + detail)
        },
        StageView::Snapshot => if ok {
            StageView::NamePrevious
        } else {
            StageView::DiscardStaging("Could not create the pre-restore safety backup: "@ + detail)
        },
        StageView::NamePrevious => if ok {
            StageView::CheckBeforeMove
        } else {
            StageView::DiscardStaging(detail)
        },
        StageView::CheckBeforeMove => if ok {
            StageView::MoveAside
        } else {
            StageView::Apply { had_existing: false }
        },
        StageView::MoveAside => if ok {
            StageView::Apply { had_existing: true }
        } else {
            StageView::DiscardStaging(
                "Could not prepare current save for restore. Is the game still running? "@ + detail,
            )
        },
        StageView::Apply { had_existing } => if ok {
            if had_existing {
                StageView::DiscardPrevious
            } else {
                StageView::Finished
            }
        } else if had_existing {
            StageView::PutBack("Could not apply restored save: "@ + detail)
        } else {
            StageView::DiscardStaging("Could not apply restored save: "@ + detail)
        },
        StageView::PutBack(m) => StageView::DiscardStaging(m),
        StageView::DiscardStaging(m) => StageView::Failed(m),
        StageView::DiscardPrevious => StageView::Finished,
        StageView::Failed(m) => StageView::Failed(m),
        StageView::Finished => StageView::Finished,
    }
}

fn fail_with(prefix: &str, detail: &str) -> (r: String)
    ensures
        r@ == prefix@ + detail@,
{
    prefix.to_owned().concat(detail)
}

/// The stage after `stage`, whose action succeeded (`ok`; for the two
/// checks: the save folder exists) or failed with `detail`. Failures after
/// the staging folder exists remove it; a failure after the old save folder
/// was moved aside first moves it back.
pub fn restore_next(stage: RestoreStage, ok: bool, detail: &str) -> (r: RestoreStage)
    ensures
        r.view_of() == next_view(stage.view_of(), ok, detail@),
{
    proof {
        reveal_strlit("Save folder has no parent directory");
        reveal_strlit("Could not prepare save folder: ");
        reveal_strlit("Could not create restore staging folder: ");
        reveal_strlit("Backup could not be extracted safely: ");
        reveal_strlit("Could not prepare backup folder: ");
        reveal_strlit("Could not create the pre-restore safety backup: ");
        reveal_strlit("Could not prepare current save for restore. Is the game still running? ");
        reveal_strlit("Could not apply restored save: ");
    }
    match stage {
        RestoreStage::CheckParent => if ok {
            RestoreStage::PrepareParent
        } else {
            RestoreStage::Done(Err("Save folder has no parent directory".to_owned()))
        },
        RestoreStage::PrepareParent => if ok {
            RestoreStage::NameStaging
        } else {
            RestoreStage::Done(Err(fail_with("Could not prepare save folder: ", detail)))
        },
        RestoreStage::NameStaging => if ok {
            RestoreStage::CreateStaging
        } else {
            RestoreStage::Done(Err(detail.to_owned()))
        },
        RestoreStage::CreateStaging => if ok {
            RestoreStage::Extract
        } else {
            RestoreStage::Done(Err(fail_with("Could not create restore staging folder: ", detail)))
        },
        RestoreStage::Extract => if ok {
            RestoreStage::CheckBeforeSnapshot
        } else {
            RestoreStage::DiscardStaging(fail_with("Backup could not be extracted safely: ", detail))
        },
        RestoreStage::CheckBeforeSnapshot => if ok {
            RestoreStage::PrepareBackups
        } else {
            RestoreStage::NamePrevious
        },
        RestoreStage::PrepareBackups => if ok {
            RestoreStage::Snapshot
        } else {
            RestoreStage::DiscardStaging(fail_with("Could not prepare backup folder: ", detail))
        },
        RestoreStage::Snapshot => if ok {
            RestoreStage::NamePrevious
        } else {
            RestoreStage::DiscardStaging(fail_with("Could not create the pre-restore safety backup: ", detail))
        },
        RestoreStage::NamePrevious => if ok {
            RestoreStage::CheckBeforeMove
        } else {
            RestoreStage::DiscardStaging(detail.to_owned())
        },
        RestoreStage::CheckBeforeMove => if ok {
            RestoreStage::MoveAside
        } else {
            RestoreStage::Apply { had_existing: false }
        },
        RestoreStage::MoveAside => if ok {
            RestoreStage::Apply { had_existing: true }
        } else {
            RestoreStage::DiscardStaging(
                fail_with("Could not prepare current save for restore. Is the game still running? ", detail),
            )
        },
        RestoreStage::Apply { had_existing } => if ok {
            if had_existing {
                RestoreStage::DiscardPrevious
            } else {
                RestoreStage::Done(Ok(()))
            }
        } else if had_existing {
            RestoreStage::PutBack(fail_with("Could not apply restored save: ", detail))
        } else {
            RestoreStage::DiscardStaging(fail_with("Could not apply restored save: ", detail))
        },
        RestoreStage::PutBack(m) => RestoreStage::DiscardStaging(m),
        RestoreStage::DiscardStaging(m) => RestoreStage::Done(Err(m)),
        RestoreStage::DiscardPrevious => RestoreStage::Done(Ok(())),
        RestoreStage::Done(r) => RestoreStage::Done(r),
    }
}

/// What a folder involved in a restore holds.
pub enum Holds {
    /// Nothing: the folder is not there.
    Absent,
    /// The save as it was before the restore.
    Original,
    /// A folder being filled (an interrupted extraction).
    Partial,
    /// The snapshot's contents.
    Restored,
}

/// The three folders a restore moves things between, and the safety
/// snapshot it takes of the current save.
pub struct Folders {
    pub save: Holds,
    pub staging: Holds,
    pub previous: Holds,
    /// What the pre-restore safety snapshot holds.
    pub backup: Holds,
}

/// What the action of stage `s` does to the folders when it succeeds
/// (`ok`); a failed action changes nothing, except that a failed extraction
/// leaves a partly filled staging folder.
pub open spec fn effect(s: StageView, ok: bool, f: Folders) -> Folders {
    match s {
        StageView::CreateStaging => if ok {
            Folders { staging: Holds::Partial, ..f }
        } else {
            f
        },
        StageView::Extract => if ok {
            Folders { staging: Holds::Restored, ..f }
        } else {
            Folders { staging: Holds::Partial, ..f }
        },
        StageView::Snapshot => if ok {
            Folders { backup: f.save, ..f }
        } else {
            f
        },
        StageView::MoveAside => if ok {
            Folders { save: Holds::Absent, previous: f.save, ..f }
        } else {
            f
        },
        StageView::Apply { .. } => if ok {
            Folders { save: f.staging, staging: Holds::Absent, ..f }
        } else {
            f
        },
        StageView::PutBack(_) => if ok {
            Folders { save: f.previous, previous: Holds::Absent, ..f }
        } else {
            f
        },
        StageView::DiscardStaging(_) => if ok {
            Folders { staging: Holds::Absent, ..f }
        } else {
            f
        },
        StageView::DiscardPrevious => if ok {
            Folders { previous: Holds::Absent, ..f }
        } else {
            f
        },
        _ => f,
    }
}

/// Whether the save folder exists.
pub open spec fn save_exists(f: Folders) -> bool {
    !(f.save is Absent)
}

/// Runs a restore from stage `s` on folders `f`: each action's success is
/// taken from `oks` in turn (the two existence checks answer from the
/// folders themselves, and moving the old save back always succeeds; with
/// `clean`, removing the staging folder always succeeds too); the stage
/// reached and the folders then.
pub open spec fn run(
    s: StageView,
    f: Folders,
    oks: Seq<bool>,
    details: Seq<Seq<char>>,
    clean: bool,
) -> (StageView, Folders)
    decreases oks.len(),
{
    if oks.len() == 0 || details.len() == 0 || s is Failed || s is Finished {
        (s, f)
    } else {
        let ok = match s {
            StageView::CheckBeforeSnapshot => save_exists(f),
            StageView::CheckBeforeMove => save_exists(f),
            StageView::PutBack(_) => true,
            StageView::DiscardStaging(_) => clean || oks[0],
            _ => oks[0],
        };
        run(next_view(s, ok, details[0]), effect(s, ok, f), oks.drop_first(), details.drop_first(), clean)
    }
}

/// What holds at each stage of a restore that started with the save folder
/// holding `orig` (present or absent), no staging and no previous folder.
/// With `clean` (removing the staging folder always succeeds), a failed
/// restore leaves no staging folder behind.
pub open spec fn stage_inv(s: StageView, f: Folders, orig: Holds, clean: bool) -> bool {
    let save_kept = f.save == orig;
    let copied = orig is Original ==> f.backup == Holds::Original;
    match s {
        StageView::CheckParent | StageView::PrepareParent | StageView::NameStaging | StageView::CreateStaging => {
            save_kept && f.previous is Absent && f.staging is Absent
        },
        StageView::Extract => save_kept && f.previous is Absent,
        StageView::CheckBeforeSnapshot | StageView::PrepareBackups | StageView::Snapshot => {
            save_kept && f.previous is Absent && f.staging is Restored
        },
        StageView::NamePrevious | StageView::CheckBeforeMove | StageView::MoveAside => {
            save_kept && f.previous is Absent && f.staging is Restored && copied
        },
        StageView::Apply { had_existing } => f.staging is Restored && copied && if had_existing {
            f.save is Absent && f.previous == orig
        } else {
            save_kept && f.previous is Absent
        },
        StageView::PutBack(_) => f.save is Absent && f.previous == orig && copied,
        StageView::DiscardStaging(_) => save_kept && f.previous is Absent,
        StageView::DiscardPrevious => f.save is Restored && f.staging is Absent && copied,
        StageView::Failed(_) => save_kept && f.previous is Absent && (clean ==> f.staging is Absent),
        StageView::Finished => f.save is Restored && f.staging is Absent && copied,
    }
}

proof fn lemma_step_keeps(s: StageView, f: Folders, orig: Holds, clean: bool, ok: bool, detail: Seq<char>)
    requires
        stage_inv(s, f, orig, clean),
        orig is Original || orig is Absent,
        s is CheckBeforeSnapshot ==> ok == save_exists(f),
        s is CheckBeforeMove ==> ok == save_exists(f),
        s is PutBack ==> ok,
        s is DiscardStaging && clean ==> ok,
    ensures
        stage_inv(next_view(s, ok, detail), effect(s, ok, f), orig, clean),
{
}

proof fn lemma_run_keeps(
    s: StageView,
    f: Folders,
    orig: Holds,
    oks: Seq<bool>,
    details: Seq<Seq<char>>,
    clean: bool,
)
    requires
        stage_inv(s, f, orig, clean),
        orig is Original || orig is Absent,
    ensures
        stage_inv(run(s, f, oks, details, clean).0, run(s, f, oks, details, clean).1, orig, clean),
    decreases oks.len(),
{
    if !(oks.len() == 0 || details.len() == 0 || s is Failed || s is Finished) {
        let ok = match s {
            StageView::CheckBeforeSnapshot => save_exists(f),
            StageView::CheckBeforeMove => save_exists(f),
            StageView::PutBack(_) => true,
            StageView::DiscardStaging(_) => clean || oks[0],
            _ => oks[0],
        };
        lemma_step_keeps(s, f, orig, clean, ok, details[0]);
        lemma_run_keeps(
            next_view(s, ok, details[0]),
            effect(s, ok, f),
            orig,
            oks.drop_first(),
            details.drop_first(),
            clean,
        );
    }
}

/// A restore never leaves the save folder worse off: run from the start on
/// a save folder that holds the original save (or is absent), whatever each
/// step's outcome, a restore that fails leaves the save folder as it was
/// and nothing moved aside, and one that finishes leaves it holding the
/// snapshot's contents with no staging folder left (as long as moving the
/// old save back, when needed, succeeds). When removing the staging folder
/// succeeds, a failed restore leaves no staging folder behind either. A
/// restore over an existing save takes a safety snapshot of it before the
/// save is moved aside or replaced: every run that gets that far, and every
/// run that finishes, holds that copy.
pub proof fn lemma_restore_never_worse(exists: bool, oks: Seq<bool>, details: Seq<Seq<char>>, clean: bool)
    ensures
        ({
            let orig = if exists {
                Holds::Original
            } else {
                Holds::Absent
            };
            let start = Folders { save: orig, staging: Holds::Absent, previous: Holds::Absent, backup: Holds::Absent };
            let (s, f) = run(StageView::CheckParent, start, oks, details, clean);
            &&& s is Failed ==> f.save == orig && f.previous is Absent
            &&& s is Failed && clean ==> f.staging is Absent
            &&& s is Finished ==> f.save is Restored && f.staging is Absent
            &&& exists && (s is MoveAside || s is Apply || s is PutBack || s is DiscardPrevious || s is Finished)
                ==> f.backup is Original
        }),
{
    let orig = if exists {
        Holds::Original
    } else {
        Holds::Absent
    };
    let start = Folders { save: orig, staging: Holds::Absent, previous: Holds::Absent, backup: Holds::Absent };
    lemma_run_keeps(StageView::CheckParent, start, orig, oks, details, clean);
}

} // verus!
