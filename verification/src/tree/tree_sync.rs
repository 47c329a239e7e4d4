//! The sync of a whole tree: the manifest first, and then the projects that it names.
use vstd::prelude::*;

use crate::pool::{check_failed, TasksFailed};
use crate::tree::sync::project_paths;
use crate::tree::{CheckoutType, FetchType, ProjectInfo, Tree, TreeConfigView};

verus! {

/// A part of the sync of a whole tree.
#[derive(Copy, Clone, PartialEq, Eq, Structural, Debug)]
pub enum SyncPhase {
    /// The hooks of the tree are written.
    UpdateHooks,
    /// The manifest is fetched.
    FetchManifest,
    /// The manifest is checked out.
    CheckoutManifest,
    /// The manifest is read, and the projects are selected.
    ReadManifest,
    /// The projects are fetched.
    FetchProjects,
    /// The projects are checked out.
    CheckoutProjects,
    /// The files of what was checked out come to their other places.
    PlaceFiles,
    /// The configuration of the tree, which names what was checked out, is written.
    WriteConfig,
}

/// Projects are fetched in the phase.
pub open spec fn fetches(phase: SyncPhase) -> bool {
    phase == SyncPhase::FetchManifest || phase == SyncPhase::FetchProjects
}

/// Projects are checked out in the phase.
pub open spec fn checks_out(phase: SyncPhase) -> bool {
    phase == SyncPhase::CheckoutManifest || phase == SyncPhase::CheckoutProjects
}

/// The phase belongs to a full checkout.
pub open spec fn completes_checkout(phase: SyncPhase) -> bool {
    phase == SyncPhase::PlaceFiles || phase == SyncPhase::WriteConfig
}

/// A phase, where it is wanted.
pub open spec fn phase_if(wanted: bool, phase: SyncPhase) -> Seq<SyncPhase> {
    if wanted {
        seq![phase]
    } else {
        Seq::empty()
    }
}

/// The phases of a checkout, where the checkout itself is the given one.
pub open spec fn checkout_phases(checkout: CheckoutType, phase: SyncPhase) -> Seq<SyncPhase> {
    phase_if(checkout != CheckoutType::NoCheckout, phase) + phase_if(
        checkout == CheckoutType::Checkout,
        SyncPhase::PlaceFiles,
    ) + phase_if(checkout == CheckoutType::Checkout, SyncPhase::WriteConfig)
}

/// The parts of the sync of a whole tree, in order.
pub open spec fn phases(fetch: FetchType, checkout: CheckoutType) -> Seq<SyncPhase> {
    seq![SyncPhase::UpdateHooks] + phase_if(fetch == FetchType::Fetch, SyncPhase::FetchManifest)
        + checkout_phases(checkout, SyncPhase::CheckoutManifest) + seq![SyncPhase::ReadManifest]
        + phase_if(fetch != FetchType::NoFetch, SyncPhase::FetchProjects) + checkout_phases(
        checkout,
        SyncPhase::CheckoutProjects,
    )
}

/// Adds the phases of a checkout.
fn add_checkout(phases: &mut Vec<SyncPhase>, checkout: CheckoutType, phase: SyncPhase)
    ensures
        final(phases)@ == old(phases)@ + checkout_phases(checkout, phase),
{
    if checkout != CheckoutType::NoCheckout {
        phases.push(phase);
    }
    if checkout == CheckoutType::Checkout {
        phases.push(SyncPhase::PlaceFiles);
        phases.push(SyncPhase::WriteConfig);
    }
    assert(phases@ =~= old(phases)@ + checkout_phases(checkout, phase));
}

/// The parts of the sync of a whole tree, in order.
pub fn sync_phases(fetch: FetchType, checkout: CheckoutType) -> (r: Vec<SyncPhase>)
    ensures
        r@ == phases(fetch, checkout),
{
    let mut r: Vec<SyncPhase> = Vec::new();
    r.push(SyncPhase::UpdateHooks);
    if fetch == FetchType::Fetch {
        r.push(SyncPhase::FetchManifest);
    }
    add_checkout(&mut r, checkout, SyncPhase::CheckoutManifest);
    r.push(SyncPhase::ReadManifest);
    if fetch != FetchType::NoFetch {
        r.push(SyncPhase::FetchProjects);
    }
    add_checkout(&mut r, checkout, SyncPhase::CheckoutProjects);
    assert(r@ =~= phases(fetch, checkout));
    r
}

/// What came of a phase.
#[derive(Copy, Clone, PartialEq, Eq, Structural, Debug)]
pub enum PhaseEvent {
    /// All of it was done.
    Done,
    /// The projects were all tried, and so many of them failed.
    Tried { failed: usize },
}

/// Why the sync of a tree ends early.
#[derive(Copy, Clone, PartialEq, Eq, Structural, Debug)]
pub enum TreeSyncError {
    /// So many projects could not be fetched.
    FetchFailed { count: usize },
    /// Something happened that does not follow from what was to be done.
    Unexpected,
}

/// The phases that are left after an event in the first of the given ones, or why the sync ends: a
/// fetch that fails ends it, and a checkout that fails does not.
pub open spec fn phase_step(left: Seq<SyncPhase>, event: PhaseEvent) -> Result<
    Seq<SyncPhase>,
    TreeSyncError,
> {
    if left.len() == 0 {
        Err(TreeSyncError::Unexpected)
    } else {
        match event {
            PhaseEvent::Tried { failed } => if fetches(left[0]) && failed > 0 {
                Err(TreeSyncError::FetchFailed { count: failed })
            } else if fetches(left[0]) || checks_out(left[0]) {
                Ok(left.drop_first())
            } else {
                Err(TreeSyncError::Unexpected)
            },
            PhaseEvent::Done => if fetches(left[0]) || checks_out(left[0]) {
                Err(TreeSyncError::Unexpected)
            } else {
                Ok(left.drop_first())
            },
        }
    }
}

/// The phases that are left after some events, the first of them being what is to be done then; or
/// why the sync has ended.
pub open spec fn tree_run(
    fetch: FetchType,
    checkout: CheckoutType,
    events: Seq<PhaseEvent>,
) -> Result<Seq<SyncPhase>, TreeSyncError>
    decreases events.len(),
{
    if events.len() == 0 {
        Ok(phases(fetch, checkout))
    } else {
        match tree_run(fetch, checkout, events.drop_last()) {
            Ok(left) => phase_step(left, events.last()),
            Err(_) => Err(TreeSyncError::Unexpected),
        }
    }
}

/// What is left after some events are the last of the phases.
proof fn lemma_left_is_rest(fetch: FetchType, checkout: CheckoutType, events: Seq<PhaseEvent>)
    ensures
        tree_run(fetch, checkout, events) matches Ok(left) ==> events.len() <= phases(
            fetch,
            checkout,
        ).len() && left == phases(fetch, checkout).skip(events.len() as int),
    decreases events.len(),
{
    let all = phases(fetch, checkout);
    if events.len() == 0 {
        assert(all.skip(0) =~= all);
    } else {
        let front = events.drop_last();
        lemma_left_is_rest(fetch, checkout, front);
        if front.len() <= all.len() {
            assert(all.skip(front.len() as int).len() > 0 ==> all.skip(
                front.len() as int,
            ).drop_first() =~= all.skip(events.len() as int));
        }
    }
}

/// The phases come in their order, each once.
pub proof fn law_phases_in_order(
    fetch: FetchType,
    checkout: CheckoutType,
    events: Seq<PhaseEvent>,
)
    ensures
        tree_run(fetch, checkout, events) matches Ok(left) ==> {
            &&& events.len() + left.len() == phases(fetch, checkout).len()
            &&& left.len() > 0 ==> left[0] == phases(fetch, checkout)[events.len() as int]
        },
{
    lemma_left_is_rest(fetch, checkout, events);
}

/// Where something could not be fetched, the sync has ended, whatever happens afterwards: nothing
/// more is checked out, placed or recorded.
pub proof fn law_failed_fetch_ends(
    fetch: FetchType,
    checkout: CheckoutType,
    events: Seq<PhaseEvent>,
    i: int,
)
    requires
        0 <= i < events.len(),
        tree_run(fetch, checkout, events.take(i)) matches Ok(left) && left.len() > 0 && fetches(
            left[0],
        ),
        events[i] matches PhaseEvent::Tried { failed } && failed > 0,
    ensures
        tree_run(fetch, checkout, events) is Err,
        i == events.len() - 1 ==> tree_run(fetch, checkout, events)
            == Err::<Seq<SyncPhase>, TreeSyncError>(
            TreeSyncError::FetchFailed { count: events[i]->failed },
        ),
    decreases events.len(),
{
    let front = events.drop_last();
    if i == events.len() - 1 {
        assert(front =~= events.take(i));
    } else {
        assert(front.take(i) =~= events.take(i));
        law_failed_fetch_ends(fetch, checkout, front, i);
    }
}

/// How many projects could not be checked out makes no difference to what follows.
pub proof fn law_failed_checkout_goes_on(left: Seq<SyncPhase>, failed: usize)
    requires
        left.len() > 0,
        checks_out(left[0]),
    ensures
        phase_step(left, PhaseEvent::Tried { failed }) == Ok::<Seq<SyncPhase>, TreeSyncError>(
            left.drop_first(),
        ),
{
}

/// Files are placed and the configuration is written with a full checkout only, and only right
/// after the checkout.
pub proof fn law_recorded_after_checkout(
    fetch: FetchType,
    checkout: CheckoutType,
    events: Seq<PhaseEvent>,
)
    ensures
        tree_run(fetch, checkout, events) matches Ok(left) ==> (left.len() > 0
            && completes_checkout(left[0]) ==> {
            &&& checkout == CheckoutType::Checkout
            &&& events.len() > 0
            &&& if left[0] == SyncPhase::PlaceFiles {
                checks_out(phases(fetch, checkout)[events.len() - 1])
            } else {
                phases(fetch, checkout)[events.len() - 1] == SyncPhase::PlaceFiles
            }
        }),
{
    lemma_left_is_rest(fetch, checkout, events);
}

/// The sync of a whole tree.
pub struct TreeSync {
    phases: Vec<SyncPhase>,
    done: usize,
}

impl View for TreeSync {
    type V = Seq<SyncPhase>;

    /// The phases that are left.
    closed spec fn view(&self) -> Seq<SyncPhase> {
        self.phases@.skip(self.done as int)
    }
}

impl TreeSync {
    #[verifier::type_invariant]
    spec fn well_formed(self) -> bool {
        self.done <= self.phases.len()
    }

    /// Begins, and says what is to be done first.
    pub fn begin(fetch: FetchType, checkout: CheckoutType) -> (r: (TreeSync, SyncPhase))
        ensures
            r.0@ == phases(fetch, checkout),
            r.1 == phases(fetch, checkout)[0],
    {
        let all: Vec<SyncPhase> = sync_phases(fetch, checkout);
        let first: SyncPhase = all[0];
        let sync: TreeSync = TreeSync { phases: all, done: 0 };
        assert(sync@ =~= phases(fetch, checkout));
        (sync, first)
    }

    /// Takes what came of the last phase, and says what is to be done next for the projects, if
    /// anything is left. Where the configuration is to be written, it names them.
    pub fn next(&mut self, tree: &mut Tree, projects: &Vec<ProjectInfo>, event: PhaseEvent) -> (r:
        Result<Option<SyncPhase>, TreeSyncError>)
        ensures
            final(tree).path@ == old(tree).path@,
            match phase_step(old(self)@, event) {
                Ok(left) => {
                    &&& final(self)@ == left
                    &&& r == Ok::<Option<SyncPhase>, TreeSyncError>(
                        if left.len() == 0 {
                            None
                        } else {
                            Some(left[0])
                        },
                    )
                },
                Err(error) => {
                    &&& final(self)@ == Seq::<SyncPhase>::empty()
                    &&& r == Err::<Option<SyncPhase>, TreeSyncError>(error)
                },
            },
            final(tree).config@ == if r matches Ok(Some(phase)) && phase == SyncPhase::WriteConfig {
                TreeConfigView {
                    projects: project_paths(projects.deep_view()),
                    ..old(tree).config@
                }
            } else {
                old(tree).config@
            },
    {
        proof {
            use_type_invariant(&*self);
        }
        let ghost left = self@;
        let count: usize = self.phases.len();
        if self.done == count {
            return Err(TreeSyncError::Unexpected);
        }
        let phase: SyncPhase = self.phases[self.done];
        assert(left[0] == phase);
        let fetched: bool = phase == SyncPhase::FetchManifest || phase == SyncPhase::FetchProjects;
        let checked_out: bool = phase == SyncPhase::CheckoutManifest || phase
            == SyncPhase::CheckoutProjects;
        let error: Option<TreeSyncError> = match event {
            PhaseEvent::Tried { failed } => if fetched {
                match check_failed(failed) {
                    Ok(()) => None,
                    Err(TasksFailed { count }) => Some(TreeSyncError::FetchFailed { count }),
                }
            } else if checked_out {
                None
            } else {
                Some(TreeSyncError::Unexpected)
            },
            PhaseEvent::Done => if fetched || checked_out {
                Some(TreeSyncError::Unexpected)
            } else {
                None
            },
        };
        match error {
            Some(error) => {
                self.done = count;
                assert(self@ =~= Seq::empty());
                Err(error)
            },
            None => {
                self.done = self.done + 1;
                assert(self@ =~= left.drop_first());
                if self.done == count {
                    Ok(None)
                } else {
                    let next: SyncPhase = self.phases[self.done];
                    if next == SyncPhase::WriteConfig {
                        tree.record_projects(projects);
                    }
                    Ok(Some(next))
                }
            },
        }
    }
}

/// What a sync does, whichever way it was asked for: the hooks are written first. The manifest is
/// fetched only where it is asked for, and the projects wherever anything is; both are checked out
/// wherever refs are updated at all. Files are placed, and the configuration is written, exactly
/// where there is a full checkout. The manifest is always read.
pub proof fn law_phases_asked_for(fetch: FetchType, checkout: CheckoutType)
    ensures
        ({
            let all = phases(fetch, checkout);
            &&& all[0] == SyncPhase::UpdateHooks
            &&& all.contains(SyncPhase::ReadManifest)
            &&& all.contains(SyncPhase::FetchManifest) <==> fetch == FetchType::Fetch
            &&& all.contains(SyncPhase::FetchProjects) <==> fetch != FetchType::NoFetch
            &&& all.contains(SyncPhase::CheckoutManifest) <==> checkout != CheckoutType::NoCheckout
            &&& all.contains(SyncPhase::CheckoutProjects) <==> checkout != CheckoutType::NoCheckout
            &&& all.contains(SyncPhase::PlaceFiles) <==> checkout == CheckoutType::Checkout
            &&& all.contains(SyncPhase::WriteConfig) <==> checkout == CheckoutType::Checkout
        }),
{
    lemma_phases(fetch, checkout);
    let all = phases(fetch, checkout);
    let fetched: int = if fetch == FetchType::Fetch {
        1
    } else {
        0
    };
    let checked_out: int = match checkout {
        CheckoutType::Checkout => 3,
        CheckoutType::RefsOnly => 1,
        CheckoutType::NoCheckout => 0,
    };
    let read = 1 + fetched + checked_out;
    assert(all[read] == SyncPhase::ReadManifest);
    if fetch == FetchType::Fetch {
        assert(all[1] == SyncPhase::FetchManifest);
    }
    if fetch != FetchType::NoFetch {
        assert(all[read + 1] == SyncPhase::FetchProjects);
    }
    if checkout != CheckoutType::NoCheckout {
        let first: int = if fetch == FetchType::Fetch {
            2
        } else {
            1
        };
        assert(all[first] == SyncPhase::CheckoutManifest);
        let second: int = if fetch == FetchType::NoFetch {
            read + 1
        } else {
            read + 2
        };
        assert(all[second] == SyncPhase::CheckoutProjects);
        if checkout == CheckoutType::Checkout {
            assert(all[first + 1] == SyncPhase::PlaceFiles);
            assert(all[first + 2] == SyncPhase::WriteConfig);
        }
    }
}

/// The place of a phase that comes once, among those that do.
pub open spec fn phase_rank(phase: SyncPhase) -> Option<int> {
    match phase {
        SyncPhase::UpdateHooks => Some(0),
        SyncPhase::FetchManifest => Some(1),
        SyncPhase::CheckoutManifest => Some(2),
        SyncPhase::ReadManifest => Some(3),
        SyncPhase::FetchProjects => Some(4),
        SyncPhase::CheckoutProjects => Some(5),
        SyncPhase::PlaceFiles => None,
        SyncPhase::WriteConfig => None,
    }
}

/// The manifest is fetched before it is checked out, checked out before it is read, and read before
/// the projects are fetched, which they are before they are checked out. In a full checkout, each
/// of the two checkouts is followed by the placing of files, and that by the configuration.
pub proof fn law_phases_follow(fetch: FetchType, checkout: CheckoutType, i: int, j: int)
    requires
        0 <= i < j < phases(fetch, checkout).len(),
    ensures
        ({
            let all = phases(fetch, checkout);
            &&& phase_rank(all[i]) is Some && phase_rank(all[j]) is Some ==> phase_rank(all[i])->0
                < phase_rank(all[j])->0
            &&& checkout == CheckoutType::Checkout && checks_out(all[i]) ==> i + 2 < all.len()
                && all[i + 1] == SyncPhase::PlaceFiles && all[i + 2] == SyncPhase::WriteConfig
        }),
{
    lemma_phases(fetch, checkout);
}

/// The phases, spelled out.
proof fn lemma_phases(fetch: FetchType, checkout: CheckoutType)
    ensures
        phases(fetch, checkout) == match (fetch, checkout) {
            (FetchType::NoFetch, CheckoutType::NoCheckout) => seq![
                SyncPhase::UpdateHooks,
                SyncPhase::ReadManifest,
            ],
            (FetchType::NoFetch, CheckoutType::RefsOnly) => seq![
                SyncPhase::UpdateHooks,
                SyncPhase::CheckoutManifest,
                SyncPhase::ReadManifest,
                SyncPhase::CheckoutProjects,
            ],
            (FetchType::NoFetch, CheckoutType::Checkout) => seq![
                SyncPhase::UpdateHooks,
                SyncPhase::CheckoutManifest,
                SyncPhase::PlaceFiles,
                SyncPhase::WriteConfig,
                SyncPhase::ReadManifest,
                SyncPhase::CheckoutProjects,
                SyncPhase::PlaceFiles,
                SyncPhase::WriteConfig,
            ],
            (FetchType::FetchExceptManifest, CheckoutType::NoCheckout) => seq![
                SyncPhase::UpdateHooks,
                SyncPhase::ReadManifest,
                SyncPhase::FetchProjects,
            ],
            (FetchType::FetchExceptManifest, CheckoutType::RefsOnly) => seq![
                SyncPhase::UpdateHooks,
                SyncPhase::CheckoutManifest,
                SyncPhase::ReadManifest,
                SyncPhase::FetchProjects,
                SyncPhase::CheckoutProjects,
            ],
            (FetchType::FetchExceptManifest, CheckoutType::Checkout) => seq![
                SyncPhase::UpdateHooks,
                SyncPhase::CheckoutManifest,
                SyncPhase::PlaceFiles,
                SyncPhase::WriteConfig,
                SyncPhase::ReadManifest,
                SyncPhase::FetchProjects,
                SyncPhase::CheckoutProjects,
                SyncPhase::PlaceFiles,
                SyncPhase::WriteConfig,
            ],
            (FetchType::Fetch, CheckoutType::NoCheckout) => seq![
                SyncPhase::UpdateHooks,
                SyncPhase::FetchManifest,
                SyncPhase::ReadManifest,
                SyncPhase::FetchProjects,
            ],
            (FetchType::Fetch, CheckoutType::RefsOnly) => seq![
                SyncPhase::UpdateHooks,
                SyncPhase::FetchManifest,
                SyncPhase::CheckoutManifest,
                SyncPhase::ReadManifest,
                SyncPhase::FetchProjects,
                SyncPhase::CheckoutProjects,
            ],
            (FetchType::Fetch, CheckoutType::Checkout) => seq![
                SyncPhase::UpdateHooks,
                SyncPhase::FetchManifest,
                SyncPhase::CheckoutManifest,
                SyncPhase::PlaceFiles,
                SyncPhase::WriteConfig,
                SyncPhase::ReadManifest,
                SyncPhase::FetchProjects,
                SyncPhase::CheckoutProjects,
                SyncPhase::PlaceFiles,
                SyncPhase::WriteConfig,
            ],
        },
{
}

/// A sync in which nothing fails to be fetched goes through all its phases: every phase that ends
/// as it should leaves the ones behind it, and one that ends otherwise ends the sync.
pub proof fn law_phase_leaves_the_rest(left: Seq<SyncPhase>, failed: usize)
    requires
        left.len() > 0,
    ensures
        ({
            let tried = phase_step(left, PhaseEvent::Tried { failed });
            let done = phase_step(left, PhaseEvent::Done);
            let works = left[0] == SyncPhase::FetchManifest || left[0] == SyncPhase::FetchProjects
                || left[0] == SyncPhase::CheckoutManifest || left[0]
                == SyncPhase::CheckoutProjects;
            &&& !works ==> done is Ok && done->Ok_0 == left.skip(1) && tried is Err
            &&& works ==> done is Err
            &&& works && failed == 0 ==> tried is Ok && tried->Ok_0 == left.skip(1)
            &&& works && tried is Err ==> tried->Err_0 == (TreeSyncError::FetchFailed {
                count: failed,
            })
        }),
        phase_step(Seq::empty(), PhaseEvent::Done) is Err,
{
    assert(left.drop_first() =~= left.skip(1));
}

} // verus!
