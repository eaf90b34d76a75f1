//! The states of the texture cache and the steps between them, as plain
//! mathematics, and what holds of every run of such steps.

use super::id::DynamicTextureParams;
use super::id::TextureId;
use crate::assets::id::AssetId;
use vstd::prelude::*;

verus! {

/// What the caller saw of one load task when it last looked.
#[derive(Debug)]
pub enum LoadReport<R> {
    /// The task has not finished.
    Pending,
    /// The task finished without the file's bytes.
    Failed,
    /// The task delivered bytes, and they could not be decoded.
    Undecodable,
    /// The task delivered bytes, and this is what they decode to.
    Decoded(R),
}

/// The state of a texture cache.
pub struct StorageView<R> {
    /// The textures that can be served, each with its resource.
    pub ready: Map<TextureId, R>,
    /// The textures for which a load is under way.
    pub outstanding: Set<TextureId>,
    /// The textures whose load has failed.
    pub missing: Set<TextureId>,
    /// The loads that the caller has yet to start, oldest first.
    pub jobs: Seq<(TextureId, Seq<char>)>,
    /// The resolver's table.
    pub table: Map<AssetId, Seq<char>>,
}

/// One step in the life of a texture cache, as its state sees it.
pub enum Step<R> {
    /// The reports of one frame come in.
    Sweep(Seq<(TextureId, LoadReport<R>)>),
    /// A texture is looked up; the resource is what the served entry holds
    /// once the caller has let go of it.
    Lookup(TextureId, R),
    /// A generated texture is stored.
    Create(DynamicTextureParams, R),
    /// The caller takes the jobs to start them.
    Take,
}

impl<R> StorageView<R> {
    /// The resolver knows where the placeholder lies, and no texture but the
    /// placeholder is at once outstanding and recorded as missing.
    pub open spec fn wf(self) -> bool {
        &&& self.resolves(TextureId::Missing)
        &&& forall|id: TextureId|
            self.outstanding.contains(id) && self.missing.contains(id) ==> id
                == TextureId::Missing
    }

    /// The state in which nothing is ready, outstanding or missing, and no
    /// job waits, over the resolver's table `table`.
    pub open spec fn empty(table: Map<AssetId, Seq<char>>) -> Self {
        StorageView {
            ready: Map::empty(),
            outstanding: Set::empty(),
            missing: Set::empty(),
            jobs: Seq::empty(),
            table,
        }
    }

    /// The resolver knows a path for `id`.
    pub open spec fn resolves(self, id: TextureId) -> bool {
        self.table.contains_key(AssetId::Texture(id))
    }

    /// The state after a load of `id` was asked for. Where one is under way
    /// already, nothing changes; else `id` becomes outstanding and one job
    /// for it joins the list.
    pub open spec fn requested(self, id: TextureId) -> Self {
        if self.outstanding.contains(id) {
            self
        } else {
            StorageView {
                outstanding: self.outstanding.insert(id),
                jobs: self.jobs.push((id, self.table[AssetId::Texture(id)])),
                ..self
            }
        }
    }

    /// The state after `report` came in for the task of `id`. A report on a
    /// task that is not outstanding, or that has not finished, changes
    /// nothing. A finished task is no longer outstanding; a failed load is
    /// recorded as missing, a decoded one becomes ready, and one that could
    /// not be decoded leaves no other trace.
    pub open spec fn completed(self, id: TextureId, report: LoadReport<R>) -> Self {
        if !self.outstanding.contains(id) {
            self
        } else {
            match report {
                LoadReport::Pending => self,
                LoadReport::Failed => StorageView {
                    outstanding: self.outstanding.remove(id),
                    missing: self.missing.insert(id),
                    ..self
                },
                LoadReport::Undecodable => StorageView {
                    outstanding: self.outstanding.remove(id),
                    ..self
                },
                LoadReport::Decoded(resource) => StorageView {
                    outstanding: self.outstanding.remove(id),
                    ready: self.ready.insert(id, resource),
                    ..self
                },
            }
        }
    }

    /// The state after the reports of one frame came in, in their order.
    pub open spec fn swept(self, reports: Seq<(TextureId, LoadReport<R>)>) -> Self
        decreases reports.len(),
    {
        if reports.len() == 0 {
            self
        } else {
            self.swept(reports.drop_last()).completed(reports.last().0, reports.last().1)
        }
    }

    /// A lookup of `id` gets the very texture asked for: it is ready, or it
    /// is a generated texture, which can be made on the spot.
    pub open spec fn hit(self, id: TextureId) -> bool {
        self.ready.contains_key(id) || id is Dynamic
    }

    /// The key of the entry that a lookup of `id` serves: `id` itself on a
    /// hit; else the placeholder, if that is ready; else the canonical
    /// generated texture.
    pub open spec fn served(self, id: TextureId) -> TextureId {
        if self.hit(id) {
            id
        } else if self.ready.contains_key(TextureId::Missing) {
            TextureId::Missing
        } else {
            TextureId::Dynamic(DynamicTextureParams::canonical())
        }
    }

    /// The state after the loads that a lookup of `id` asks for. A hit asks
    /// for none. A miss asks for `id`, unless its load has failed before,
    /// and then for the placeholder, unless that is ready.
    pub open spec fn sought(self, id: TextureId) -> Self {
        if self.hit(id) {
            self
        } else {
            let first = if self.missing.contains(id) {
                self
            } else {
                self.requested(id)
            };
            if first.ready.contains_key(TextureId::Missing) {
                first
            } else {
                first.requested(TextureId::Missing)
            }
        }
    }

    /// The parameters of the texture that a lookup of `id` has to generate,
    /// if the entry that it serves is not there yet.
    pub open spec fn generated(self, id: TextureId) -> Option<DynamicTextureParams> {
        match self.served(id) {
            TextureId::Dynamic(params) if !self.ready.contains_key(self.served(id)) => Some(
                params,
            ),
            _ => None,
        }
    }

    /// The state after a lookup of `id`, where `resource` is what the
    /// served entry holds once the caller has let go of it.
    pub open spec fn looked_up(self, id: TextureId, resource: R) -> Self {
        StorageView { ready: self.ready.insert(self.served(id), resource), ..self.sought(id) }
    }

    /// The state after `resource` was stored as the generated texture of
    /// `params`.
    pub open spec fn created(self, params: DynamicTextureParams, resource: R) -> Self {
        StorageView { ready: self.ready.insert(TextureId::Dynamic(params), resource), ..self }
    }

    /// The state after the caller took the jobs to start them.
    pub open spec fn taken(self) -> Self {
        StorageView { jobs: Seq::empty(), ..self }
    }

    /// The state after one step of the cache's life.
    pub open spec fn after(self, step: Step<R>) -> Self {
        match step {
            Step::Sweep(reports) => self.swept(reports),
            Step::Lookup(id, resource) => self.looked_up(id, resource),
            Step::Create(params, resource) => self.created(params, resource),
            Step::Take => self.taken(),
        }
    }

    /// The state after a run of steps, in their order.
    pub open spec fn after_all(self, steps: Seq<Step<R>>) -> Self
        decreases steps.len(),
    {
        if steps.len() == 0 {
            self
        } else {
            self.after_all(steps.drop_last()).after(steps.last())
        }
    }

    /// A lookup of `id` asks for a load of `id`: the texture is not to be
    /// had, no load of it is under way, and its load has not failed before.
    /// The placeholder is asked for even after its load has failed.
    pub open spec fn asks_for(self, id: TextureId) -> bool {
        &&& !self.hit(id)
        &&& !self.outstanding.contains(id)
        &&& id == TextureId::Missing || !self.missing.contains(id)
    }

    /// A lookup of `id` has every path it needs: no load has to be asked
    /// for, or the resolver knows where `id` lies.
    pub open spec fn can_look_up(self, id: TextureId) -> bool {
        ||| self.hit(id)
        ||| self.missing.contains(id)
        ||| self.outstanding.contains(id)
        ||| self.resolves(id)
    }
}

/// How many of `jobs` are loads of `id`.
pub open spec fn jobs_for(jobs: Seq<(TextureId, Seq<char>)>, id: TextureId) -> nat
    decreases jobs.len(),
{
    if jobs.len() == 0 {
        0
    } else {
        jobs_for(jobs.drop_last(), id) + if jobs.last().0 == id {
            1nat
        } else {
            0nat
        }
    }
}

/// One more job counts for the texture it loads, and for no other.
pub proof fn lemma_jobs_for_push(
    jobs: Seq<(TextureId, Seq<char>)>,
    job: (TextureId, Seq<char>),
    id: TextureId,
)
    ensures
        jobs_for(jobs.push(job), id) == jobs_for(jobs, id) + if job.0 == id {
            1nat
        } else {
            0nat
        },
{
    assert(jobs.push(job).drop_last() =~= jobs);
}

impl<R> StorageView<R> {
    /// The state after `id` was looked up once for each of `resources`, in
    /// their order; each is what the served entry held after that lookup.
    pub open spec fn looked_up_repeatedly(self, id: TextureId, resources: Seq<R>) -> Self
        decreases resources.len(),
    {
        if resources.len() == 0 {
            self
        } else {
            self.looked_up_repeatedly(id, resources.drop_last()).looked_up(id, resources.last())
        }
    }

    /// Asking for a load keeps the state well-formed, and adds one job where
    /// no load of `id` was under way, and none where one was.
    pub proof fn lemma_requested(self, id: TextureId)
        requires
            self.wf(),
            id == TextureId::Missing || !self.missing.contains(id),
        ensures
            self.requested(id).wf(),
            self.requested(id).outstanding == self.outstanding.insert(id),
            self.requested(id).ready == self.ready,
            self.requested(id).missing == self.missing,
            self.requested(id).table == self.table,
            forall|other: TextureId|
                jobs_for(self.requested(id).jobs, other) == jobs_for(self.jobs, other) + if other
                    == id && !self.outstanding.contains(id) {
                    1nat
                } else {
                    0nat
                },
    {
        if self.outstanding.contains(id) {
            assert(self.outstanding.insert(id) =~= self.outstanding);
        } else {
            assert forall|other: TextureId|
                jobs_for(self.requested(id).jobs, other) == jobs_for(self.jobs, other) + if other
                    == id {
                    1nat
                } else {
                    0nat
                } by {
                lemma_jobs_for_push(self.jobs, (id, self.table[AssetId::Texture(id)]), other);
            }
        }
    }

    /// A report keeps the state well-formed, and nothing that was ready
    /// stops being ready.
    pub proof fn lemma_completed(self, id: TextureId, report: LoadReport<R>)
        requires
            self.wf(),
        ensures
            self.completed(id, report).wf(),
            self.ready.dom().subset_of(self.completed(id, report).ready.dom()),
            self.completed(id, report).jobs == self.jobs,
    {
    }

    /// The reports of a frame keep the state well-formed, and nothing that
    /// was ready stops being ready.
    pub proof fn lemma_swept(self, reports: Seq<(TextureId, LoadReport<R>)>)
        requires
            self.wf(),
        ensures
            self.swept(reports).wf(),
            self.ready.dom().subset_of(self.swept(reports).ready.dom()),
            self.swept(reports).jobs == self.jobs,
        decreases reports.len(),
    {
        if reports.len() > 0 {
            self.lemma_swept(reports.drop_last());
            self.swept(reports.drop_last()).lemma_completed(reports.last().0, reports.last().1);
        }
    }

    /// What the loads that a lookup asks for change: nothing but the
    /// outstanding loads and the jobs. One job for `id` joins the list
    /// where the lookup asks for a load of `id`, and none else; and asking
    /// once more asks for nothing new.
    pub proof fn lemma_sought(self, id: TextureId)
        requires
            self.wf(),
        ensures
            self.sought(id).wf(),
            self.sought(id).ready == self.ready,
            self.sought(id).missing == self.missing,
            self.sought(id).table == self.table,
            self.sought(id).outstanding.contains(id) == (self.outstanding.contains(id)
                || self.asks_for(id)),
            jobs_for(self.sought(id).jobs, id) == jobs_for(self.jobs, id) + if self.asks_for(id) {
                1nat
            } else {
                0nat
            },
            self.sought(id).sought(id) == self.sought(id),
    {
        if !self.hit(id) {
            let first = if self.missing.contains(id) {
                self
            } else {
                self.requested(id)
            };
            if !self.missing.contains(id) {
                self.lemma_requested(id);
            }
            if !first.ready.contains_key(TextureId::Missing) {
                first.lemma_requested(TextureId::Missing);
            }
        }
    }

    /// A lookup keeps the state well-formed, and nothing that was ready
    /// stops being ready. The next lookup of the same texture serves the
    /// same entry and asks for no load.
    pub proof fn lemma_looked_up(self, id: TextureId, resource: R)
        requires
            self.wf(),
        ensures
            self.looked_up(id, resource).wf(),
            self.ready.dom().subset_of(self.looked_up(id, resource).ready.dom()),
            self.looked_up(id, resource).missing == self.missing,
            self.looked_up(id, resource).outstanding == self.sought(id).outstanding,
            self.looked_up(id, resource).jobs == self.sought(id).jobs,
            self.looked_up(id, resource).served(id) == self.served(id),
            self.looked_up(id, resource).sought(id) == self.looked_up(id, resource),
    {
        self.lemma_sought(id);
    }

    /// A texture that is ready is served as itself, not replaced by a
    /// substitute, and it stays ready for good: whatever reports come in,
    /// whatever is looked up or stored, it is ready afterwards.
    pub proof fn law_ready_is_served_and_stays(self, id: TextureId, steps: Seq<Step<R>>)
        requires
            self.wf(),
            self.ready.contains_key(id),
        ensures
            self.hit(id),
            self.served(id) == id,
            self.after_all(steps).wf(),
            self.after_all(steps).ready.contains_key(id),
            self.after_all(steps).hit(id),
            self.after_all(steps).served(id) == id,
        decreases steps.len(),
    {
        if steps.len() > 0 {
            self.law_ready_is_served_and_stays(id, steps.drop_last());
            let before = self.after_all(steps.drop_last());
            match steps.last() {
                Step::Sweep(reports) => {
                    before.lemma_swept(reports);
                },
                Step::Lookup(other, resource) => {
                    before.lemma_looked_up(other, resource);
                },
                Step::Create(params, resource) => {},
                Step::Take => {},
            }
        }
    }

    /// Single flight: however often a texture is looked up before the next
    /// reports come in, the loads asked for are those of the first lookup.
    /// So at most one load of the texture is asked for, and exactly one
    /// where the texture is not to be had, no load of it is under way, and
    /// its load has not failed before.
    pub proof fn law_single_flight(self, id: TextureId, resources: Seq<R>)
        requires
            self.wf(),
            resources.len() > 0,
        ensures
            self.looked_up_repeatedly(id, resources).wf(),
            self.looked_up_repeatedly(id, resources).jobs == self.sought(id).jobs,
            self.looked_up_repeatedly(id, resources).outstanding == self.sought(id).outstanding,
            self.looked_up_repeatedly(id, resources).served(id) == self.served(id),
            jobs_for(self.looked_up_repeatedly(id, resources).jobs, id) == jobs_for(self.jobs, id)
                + if self.asks_for(id) {
                1nat
            } else {
                0nat
            },
        decreases resources.len(),
    {
        let earlier = resources.drop_last();
        self.lemma_sought(id);
        if earlier.len() == 0 {
            assert(self.looked_up_repeatedly(id, earlier) == self);
            self.lemma_looked_up(id, resources.last());
        } else {
            self.law_single_flight(id, earlier);
            let before = self.looked_up_repeatedly(id, earlier);
            before.lemma_looked_up(id, resources.last());
            self.lemma_settled(id, earlier);
        }
    }

    /// After one lookup or more of a texture, one more asks for no load.
    proof fn lemma_settled(self, id: TextureId, resources: Seq<R>)
        requires
            self.wf(),
            resources.len() > 0,
        ensures
            self.looked_up_repeatedly(id, resources).sought(id) == self.looked_up_repeatedly(
                id,
                resources,
            ),
        decreases resources.len(),
    {
        let earlier = resources.drop_last();
        if earlier.len() == 0 {
            assert(self.looked_up_repeatedly(id, earlier) == self);
            self.lemma_looked_up(id, resources.last());
        } else {
            self.lemma_repeated_wf(id, earlier);
            self.looked_up_repeatedly(id, earlier).lemma_looked_up(id, resources.last());
        }
    }

    /// Lookups keep the state well-formed.
    proof fn lemma_repeated_wf(self, id: TextureId, resources: Seq<R>)
        requires
            self.wf(),
        ensures
            self.looked_up_repeatedly(id, resources).wf(),
        decreases resources.len(),
    {
        if resources.len() > 0 {
            self.lemma_repeated_wf(id, resources.drop_last());
            self.looked_up_repeatedly(id, resources.drop_last()).lemma_looked_up(
                id,
                resources.last(),
            );
        }
    }

    /// A load whose bytes could not be decoded is tried again: the task
    /// leaves no trace, so the next lookup of the texture asks for a new
    /// load, and when that one is decoded the texture is ready.
    pub proof fn law_decode_failure_is_retried(self, id: TextureId, held: R, decoded: R)
        requires
            self.wf(),
            self.outstanding.contains(id),
            !self.hit(id),
        ensures
            ({
                let failed = self.completed(id, LoadReport::Undecodable);
                let again = failed.looked_up(id, held);
                let done = again.completed(id, LoadReport::Decoded(decoded));
                &&& !failed.outstanding.contains(id)
                &&& !failed.ready.contains_key(id)
                &&& failed.missing == self.missing
                &&& again.outstanding.contains(id)
                &&& jobs_for(again.jobs, id) == jobs_for(self.jobs, id) + 1
                &&& done.ready.contains_key(id)
                &&& done.ready[id] == decoded
                &&& done.hit(id)
            }),
    {
        let failed = self.completed(id, LoadReport::Undecodable);
        self.lemma_completed(id, LoadReport::Undecodable);
        // Only the placeholder can have failed before and be under way
        // again, so the lookup asks for `id` anew.
        assert(failed.asks_for(id));
        failed.lemma_sought(id);
    }
}

} // verus!
