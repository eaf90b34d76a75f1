//! The texture cache: which textures are ready, which loads are under way,
//! which have failed, and what is served while a texture is not to be had.
//!
//! The cache decides; it performs no input or output. A load that it wants
//! started is put on a list of jobs, which the caller takes and hands to its
//! worker pool. Once per frame the caller reports what it saw of the
//! tasks, and the cache moves each finished one to where it belongs.

pub mod id;
pub mod image_type;
pub mod model;

pub use id::TextureId;

use crate::assets::file::Path;
use crate::assets::id::AssetId;
use crate::assets::keyed::as_map;
use crate::assets::keyed::has_key;
use crate::assets::keyed::keys_distinct;
use crate::assets::keyed::lemma_append;
use crate::assets::keyed::lemma_empty;
use crate::assets::keyed::lemma_entry;
use crate::assets::keyed::lemma_replace;
use crate::assets::keyed::lemma_set_append;
use crate::assets::keyed::lemma_set_remove;
use crate::assets::keyed::same_but_value_at;
use crate::assets::loader::Resolver;
use id::DynamicTextureParams;
pub use model::{LoadReport, StorageView};
use vstd::prelude::*;

verus! {

/// A load that is to be started: read the file at `path`, for the texture
/// `id`.
#[derive(Debug)]
pub struct LoadJob {
    pub id: TextureId,
    pub path: Path,
}

impl View for LoadJob {
    type V = (TextureId, Seq<char>);

    open spec fn view(&self) -> (TextureId, Seq<char>) {
        (self.id, self.path@)
    }
}

/// The jobs, each as its identifier and the text of its path.
pub open spec fn job_views(jobs: Seq<LoadJob>) -> Seq<(TextureId, Seq<char>)> {
    Seq::new(jobs.len(), |i: int| jobs[i]@)
}

/// The texture cache. `R` is the type of a decoded, drawable resource.
pub struct Storage<R> {
    storage: Vec<(TextureId, R)>,
    resolver: Resolver,
    futures: Vec<TextureId>,
    missing_textures: Vec<TextureId>,
    jobs: Vec<LoadJob>,
}

impl<R> View for Storage<R> {
    type V = StorageView<R>;

    closed spec fn view(&self) -> StorageView<R> {
        StorageView {
            ready: as_map(self.storage@),
            outstanding: self.futures@.to_set(),
            missing: self.missing_textures@.to_set(),
            jobs: job_views(self.jobs@),
            table: self.resolver@,
        }
    }
}

impl<R> Storage<R> {
    /// No texture is listed twice as ready, as outstanding or as missing,
    /// and the state is well-formed.
    pub closed spec fn wf(&self) -> bool {
        &&& keys_distinct(self.storage@)
        &&& self.futures@.no_duplicates()
        &&& self.missing_textures@.no_duplicates()
        &&& self@.wf()
    }

    /// What `wf` says of the state.
    pub proof fn lemma_wf(&self)
        requires
            self.wf(),
        ensures
            self@.wf(),
    {
    }

    /// Makes an empty cache over `resolver`, and asks at once for the
    /// placeholder, so that a fallback is there as early as can be.
    pub fn new(resolver: Resolver) -> (cache: Self)
        requires
            resolver@.contains_key(AssetId::Texture(TextureId::Missing)),
        ensures
            cache.wf(),
            cache@ == StorageView::<R>::empty(resolver@).requested(TextureId::Missing),
    {
        let mut cache = Storage {
            storage: Vec::new(),
            resolver,
            futures: Vec::new(),
            missing_textures: Vec::new(),
            jobs: Vec::new(),
        };
        proof {
            lemma_empty::<TextureId, R>();
            assert(cache.futures@.to_set() =~= Set::empty());
            assert(cache.missing_textures@.to_set() =~= Set::empty());
            assert(job_views(cache.jobs@) =~= Seq::empty());
        }
        cache.request(TextureId::Missing);
        cache
    }

    /// Asks for a load of `id`. Where one is under way, nothing happens;
    /// else one job for `id` joins the list.
    fn request(&mut self, id: TextureId)
        requires
            old(self).wf(),
            old(self)@.outstanding.contains(id) || old(self)@.resolves(id),
            id == TextureId::Missing || !old(self)@.missing.contains(id),
        ensures
            final(self).wf(),
            final(self)@ == old(self)@.requested(id),
    {
        if find(&self.futures, &id).is_some() {
            return ;
        }
        let path = self.resolver.get(AssetId::Texture(id)).unwrap();
        proof {
            lemma_set_append(self.futures@, id);
            assert(job_views(self.jobs@.push(LoadJob { id, path })) =~= job_views(
                self.jobs@,
            ).push((id, path@)));
        }
        self.futures.push(id);
        self.jobs.push(LoadJob { id, path });
    }

    /// Moves one task to where `report` says it belongs.
    fn complete(&mut self, id: TextureId, report: LoadReport<R>)
        requires
            old(self).wf(),
        ensures
            final(self).wf(),
            final(self)@ == old(self)@.completed(id, report),
    {
        let at = match find(&self.futures, &id) {
            Some(at) => at,
            None => {
                return ;
            },
        };
        match report {
            LoadReport::Pending => {},
            LoadReport::Failed => {
                proof {
                    lemma_set_remove(self.futures@, at as int);
                }
                self.futures.remove(at);
                if find(&self.missing_textures, &id).is_none() {
                    proof {
                        lemma_set_append(self.missing_textures@, id);
                    }
                    self.missing_textures.push(id);
                }
                assert(self@.missing =~= old(self)@.missing.insert(id));
            },
            LoadReport::Undecodable => {
                proof {
                    lemma_set_remove(self.futures@, at as int);
                }
                self.futures.remove(at);
            },
            LoadReport::Decoded(resource) => {
                proof {
                    lemma_set_remove(self.futures@, at as int);
                }
                self.futures.remove(at);
                let ghost before = self.storage@;
                match position(&self.storage, &id) {
                    Some(i) => {
                        self.storage[i] = (id, resource);
                        proof {
                            assert(same_but_value_at(before, self.storage@, i as int));
                            lemma_replace(before, self.storage@, i as int);
                        }
                    },
                    None => {
                        proof {
                            lemma_append(before, id, resource);
                        }
                        self.storage.push((id, resource));
                    },
                }
            },
        }
    }

    /// Takes in what the caller saw of its load tasks this frame: for each
    /// task, the texture it loads and the state it was found in. Reports are
    /// handled in their order. Nothing here blocks.
    pub fn update(&mut self, reports: Vec<(TextureId, LoadReport<R>)>)
        requires
            old(self).wf(),
        ensures
            final(self).wf(),
            final(self)@ == old(self)@.swept(reports@),
    {
        let ghost all = reports@;
        for report in it: reports
            invariant
                it.seq() == all,
                self.wf(),
                self@ == old(self)@.swept(all.take(it.index() as int)),
        {
            proof {
                let upto = all.take(it.index() + 1);
                assert(upto.drop_last() =~= all.take(it.index() as int));
                assert(upto.last() == report);
            }
            self.complete(report.0, report.1);
        }
        proof {
            assert(all.take(all.len() as int) =~= all);
        }
    }

    /// The loads that are to be started, oldest first. Each is handed out
    /// once: the list is empty afterwards.
    pub fn take_jobs(&mut self) -> (jobs: Vec<LoadJob>)
        requires
            old(self).wf(),
        ensures
            final(self).wf(),
            job_views(jobs@) == old(self)@.jobs,
            final(self)@ == old(self)@.taken(),
    {
        let mut jobs: Vec<LoadJob> = Vec::new();
        core::mem::swap(&mut jobs, &mut self.jobs);
        proof {
            assert(job_views(self.jobs@) =~= Seq::empty());
            assert(self@ == old(self)@.taken());
        }
        jobs
    }

    /// Whether `id` can be served as it is.
    pub fn is_ready(&self, id: &TextureId) -> (ready: bool)
        requires
            self.wf(),
        ensures
            ready == self@.ready.contains_key(*id),
    {
        position(&self.storage, id).is_some()
    }

    /// Whether a load of `id` is under way.
    pub fn is_outstanding(&self, id: &TextureId) -> (outstanding: bool)
        requires
            self.wf(),
        ensures
            outstanding == self@.outstanding.contains(*id),
    {
        find(&self.futures, id).is_some()
    }

    /// Whether the load of `id` has failed.
    pub fn is_missing(&self, id: &TextureId) -> (missing: bool)
        requires
            self.wf(),
        ensures
            missing == self@.missing.contains(*id),
    {
        find(&self.missing_textures, id).is_some()
    }

    /// Whether `id` can be looked up: whether a lookup of it would ask for no
    /// load, or the resolver knows where `id` lies.
    pub fn can_look_up(&self, id: &TextureId) -> (able: bool)
        requires
            self.wf(),
        ensures
            able == self@.can_look_up(*id),
    {
        match id {
            TextureId::Dynamic(_) => true,
            _ => position(&self.storage, id).is_some() || find(&self.missing_textures, id).is_some()
                || find(&self.futures, id).is_some() || self.resolver.get(
                AssetId::Texture(*id),
            ).is_some(),
        }
    }

    /// Generates nothing itself: stores `resource`, which the caller has
    /// generated from `params`, under the key of that generated texture, and
    /// returns the key. The key must be new.
    pub fn create_dynamic(&mut self, params: &DynamicTextureParams, resource: R) -> (id: TextureId)
        requires
            old(self).wf(),
            !old(self)@.ready.contains_key(TextureId::Dynamic(*params)),
        ensures
            final(self).wf(),
            id == TextureId::Dynamic(*params),
            final(self)@ == old(self)@.created(*params, resource),
    {
        let id = TextureId::Dynamic(*params);
        self.store(id, resource);
        id
    }

    /// Stores `resource` under the key `id`, which must be new, and returns
    /// the position of the new entry.
    fn store(&mut self, id: TextureId, resource: R) -> (at: usize)
        requires
            old(self).wf(),
            !old(self)@.ready.contains_key(id),
        ensures
            final(self).wf(),
            final(self)@ == (StorageView {
                ready: old(self)@.ready.insert(id, resource),
                ..old(self)@
            }),
            at < final(self).storage@.len(),
            final(self).storage@[at as int] == (id, resource),
    {
        proof {
            lemma_append(self.storage@, id, resource);
        }
        self.storage.push((id, resource));
        self.storage.len() - 1
    }

    /// Looks `id` up for drawing, and never waits.
    ///
    /// `Ok` holds the very texture asked for: the entry of `id` where it is
    /// ready, or a generated texture, made by `make` where it was not there
    /// yet. `Err` holds a substitute: the placeholder where that is ready,
    /// else the canonical generated texture. Before a substitute is served,
    /// a load is asked for `id`, unless its load has failed before, and for
    /// the placeholder, unless it is ready.
    pub fn get<F: FnOnce(DynamicTextureParams) -> R>(&mut self, id: &TextureId, make: F) -> (served:
        Result<&mut R, &mut R>)
        requires
            old(self).wf(),
            old(self)@.can_look_up(*id),
            old(self)@.generated(*id) matches Some(params) ==> make.requires((params,)),
        ensures
            final(self).wf(),
            served is Ok <==> old(self)@.hit(*id),
            match served {
                Ok(resource) | Err(resource) => {
                    &&& match old(self)@.generated(*id) {
                        Some(params) => make.ensures((params,), *resource),
                        None => *resource == old(self)@.ready[old(self)@.served(*id)],
                    }
                    &&& final(self)@ == old(self)@.looked_up(*id, *final(resource))
                },
            },
    {
        let ghost before = self@;
        let (at, exact): (usize, bool) = match position(&self.storage, id) {
            Some(at) => (at, true),
            None => match id {
                TextureId::Dynamic(params) => (self.store(*id, make(*params)), true),
                _ => {
                    if find(&self.missing_textures, id).is_none() {
                        self.request(*id);
                    }
                    match position(&self.storage, &TextureId::Missing) {
                        Some(at) => (at, false),
                        None => {
                            self.request(TextureId::Missing);
                            let params = DynamicTextureParams::default();
                            let key = TextureId::Dynamic(params);
                            match position(&self.storage, &key) {
                                Some(at) => (at, false),
                                None => (self.store(key, make(params)), false),
                            }
                        },
                    }
                },
            },
        };
        proof {
            let s = self.storage@;
            let key = before.served(*id);
            lemma_entry(s, at as int);
            assert(s[at as int].0 == key);
            assert(self@.ready =~= before.sought(*id).ready.insert(key, s[at as int].1));
            let asked = before.sought(*id);
            assert forall|t: Seq<(TextureId, R)>|
                same_but_value_at(s, t, at as int) implies keys_distinct(t) && #[trigger] as_map(t)
                == asked.ready.insert(key, t[at as int].1) by {
                lemma_replace(s, t, at as int);
                assert(as_map(s).insert(key, t[at as int].1) =~= asked.ready.insert(
                    key,
                    t[at as int].1,
                ));
            }
        }
        let resource = &mut self.storage[at].1;
        if exact {
            Ok(resource)
        } else {
            Err(resource)
        }
    }
}

/// The position at which `entries` holds `id`, if it holds it.
fn position<R>(entries: &Vec<(TextureId, R)>, id: &TextureId) -> (at: Option<usize>)
    ensures
        match at {
            Some(i) => i < entries@.len() && entries@[i as int].0 == *id,
            None => !has_key(entries@, *id),
        },
{
    let mut i: usize = 0;
    while i < entries.len()
        invariant
            i <= entries@.len(),
            forall|j: int| 0 <= j < i ==> entries@[j].0 != *id,
        decreases entries@.len() - i,
    {
        if entries[i].0 == *id {
            return Some(i);
        }
        i += 1;
    }
    None
}

/// The position at which `ids` holds `id`, if it holds it.
fn find(ids: &Vec<TextureId>, id: &TextureId) -> (at: Option<usize>)
    ensures
        match at {
            Some(i) => i < ids@.len() && ids@[i as int] == *id,
            None => !ids@.contains(*id),
        },
{
    let mut i: usize = 0;
    while i < ids.len()
        invariant
            i <= ids@.len(),
            forall|j: int| 0 <= j < i ==> ids@[j] != *id,
        decreases ids@.len() - i,
    {
        if ids[i] == *id {
            return Some(i);
        }
        i += 1;
    }
    None
}

} // verus!
