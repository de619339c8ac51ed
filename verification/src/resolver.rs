//! Resolving the maps of a mesh to bindless handles.
//!
//! [`MeshMapResolver`] walks the map list of a mesh. For every map it asks
//! the resource cache; a hit is resolved through the handle table at once, a
//! miss needs work that only the caller can do: reading an asset, and
//! registering an image with the renderer. The resolver says which
//! ([`ResolverAction`]), the caller does it and reports back
//! ([`ResolverEvent`]). A map is looked at only after the one before it has
//! its handle, so a hit always finds its handle in the table.

use crate::handle_table::{BindlessHandleTable, BindlessImageHandle};
use crate::image::{MeshMaterialMap, RawRgba8Image, ResourceKey};
use crate::image_cache::{ImageCache, ImageCacheResponse, LoadError, LoadStep, LoadedImage};
use crate::sequences::{lemma_index_of_push, lemma_index_of_unique, lemma_take_contains_grows};
use std::sync::Arc;
use vstd::prelude::*;

verus! {

/// What happened outside since the resolver last asked for something.
pub enum ResolverEvent<H> {
    /// Nothing; the resolver is asked how to go on.
    Resume,
    /// The asset asked for by [`ResolverAction::Fetch`] was read, or could
    /// not be.
    ImageFetched(Result<LoadedImage<H>, LoadError>),
    /// The renderer registered the image handed out by
    /// [`ResolverAction::Register`] under this handle.
    ImageRegistered(BindlessImageHandle),
}

/// What the caller has to do next.
#[derive(Debug, PartialEq, Eq)]
pub enum ResolverAction {
    /// Read and decode the asset at `path`, then report
    /// [`ResolverEvent::ImageFetched`].
    Fetch { path: String },
    /// Register `image` with the renderer, then report
    /// [`ResolverEvent::ImageRegistered`].
    Register { id: usize, image: Arc<RawRgba8Image> },
    /// Every map has its handle.
    Done,
}

/// Why a step was not taken.
#[derive(Debug, PartialEq, Eq)]
pub enum ResolveError {
    /// An asset could not be loaded. The map it belongs to stays
    /// unresolved; resuming asks for the asset again.
    Load(LoadError),
    /// The event does not answer what the resolver is waiting for. Nothing
    /// has changed.
    UnexpectedEvent,
}

/// What the resolver is waiting for.
#[derive(Clone, Copy, Debug, PartialEq, Eq)]
pub enum Pending {
    Nothing,
    /// The asset of the first unresolved map.
    Image,
    /// The renderer's handle for the image that was recorded under `id`.
    Handle { id: usize },
}

/// The resolver as a mathematical value.
pub struct ResolverView {
    /// The keys of the resource cache, oldest first.
    pub cache: Seq<ResourceKey>,
    /// The handle table.
    pub table: Map<usize, BindlessImageHandle>,
    /// The keys of the maps of the mesh.
    pub maps: Seq<ResourceKey>,
    /// The handles of the leading maps that are resolved.
    pub resolved: Seq<BindlessImageHandle>,
    pub pending: Pending,
}

impl ResolverView {
    /// The table holds exactly the ids below `n`.
    pub open spec fn registered_below(self, n: int) -> bool {
        forall|id: usize| self.table.contains_key(id) <==> id < n
    }

    /// The table has a handle for the id of `key`.
    pub open spec fn is_registered(self, key: ResourceKey) -> bool {
        self.table.contains_key(self.cache.index_of(key) as usize)
    }

    /// The handle that the table holds for `key`.
    pub open spec fn handle_of(self, key: ResourceKey) -> BindlessImageHandle {
        self.table[self.cache.index_of(key) as usize]
    }

    /// The number of leading maps that the cache has been asked about and
    /// has a key for.
    pub open spec fn seen(self) -> nat {
        if self.pending is Handle {
            self.resolved.len() + 1
        } else {
            self.resolved.len()
        }
    }

    /// What holds of a resolver between any two steps.
    ///
    /// Every resolved map is cached and stands for the handle registered
    /// under its id. The cache holds no key twice and only keys of maps seen
    /// so far. Every id the cache has issued is in the table, but for the
    /// one whose registration is under way, and nothing else is.
    pub open spec fn consistent(self) -> bool {
        &&& self.cache.no_duplicates()
        &&& self.resolved.len() <= self.maps.len() <= usize::MAX
        &&& self.cache.len() <= self.seen()
        &&& forall|i: int|
            0 <= i < self.resolved.len() ==> {
                &&& self.cache.contains(#[trigger] self.maps[i])
                &&& self.is_registered(self.maps[i])
                &&& self.resolved[i] == self.handle_of(self.maps[i])
            }
        &&& forall|k: int|
            0 <= k < self.cache.len() ==> self.maps.take(self.seen() as int).contains(
                #[trigger] self.cache[k],
            )
        &&& match self.pending {
            Pending::Nothing => self.registered_below(self.cache.len() as int),
            Pending::Image => {
                &&& self.registered_below(self.cache.len() as int)
                &&& self.resolved.len() < self.maps.len()
                &&& self.maps[self.resolved.len() as int] is AssetPath
                &&& !self.cache.contains(self.maps[self.resolved.len() as int])
            },
            Pending::Handle { id } => {
                &&& id + 1 == self.cache.len()
                &&& self.registered_below(id as int)
                &&& self.resolved.len() < self.maps.len()
                &&& self.cache[id as int] == self.maps[self.resolved.len() as int]
            },
        }
    }

    /// How a resolver that waits for nothing moves on: it resolves maps as
    /// long as they are cached, and stops at the end of the list, or at the
    /// first map that is not cached, for which it asks the caller's help.
    pub open spec fn scanned(self, after: ResolverView, action: ResolverAction) -> bool {
        let n = after.resolved.len() as int;
        &&& after.maps == self.maps
        &&& after.table == self.table
        &&& self.resolved.len() <= n <= self.maps.len()
        &&& after.resolved.take(self.resolved.len() as int) == self.resolved
        &&& forall|i: int|
            self.resolved.len() <= i < n ==> {
                &&& self.cache.contains(#[trigger] self.maps[i])
                &&& self.is_registered(self.maps[i])
                &&& after.resolved[i] == self.handle_of(self.maps[i])
            }
        &&& if n == self.maps.len() {
            &&& action is Done
            &&& after.cache == self.cache
            &&& after.pending is Nothing
        } else {
            &&& !self.cache.contains(self.maps[n])
            &&& match self.maps[n] {
                ResourceKey::PlaceholderColor(rgba) => {
                    &&& action matches ResolverAction::Register { id, image }
                    &&& id == self.cache.len()
                    &&& image.is_placeholder(rgba)
                    &&& after.cache == self.cache.push(self.maps[n])
                    &&& after.pending == (Pending::Handle { id })
                },
                ResourceKey::AssetPath(asset) => {
                    &&& action matches ResolverAction::Fetch { path }
                    &&& path@ == asset
                    &&& after.cache == self.cache
                    &&& after.pending is Image
                },
            }
        }
    }

    /// The resolver after the renderer has answered the pending
    /// registration of `id` with `handle`.
    pub open spec fn registered(self, id: usize, handle: BindlessImageHandle) -> ResolverView {
        ResolverView {
            table: self.table.insert(id, handle),
            resolved: self.resolved.push(handle),
            pending: Pending::Nothing,
            ..self
        }
    }
}

/// Load before use: a key that the cache holds has its handle in the table,
/// so a hit can always be resolved. The one exception is the key whose image
/// is being registered, and the resolver asks nothing about it until that is
/// done.
pub proof fn lemma_hit_finds_handle(resolver: ResolverView, key: ResourceKey)
    requires
        resolver.consistent(),
        resolver.cache.contains(key),
        resolver.pending matches Pending::Handle { id } ==> key != resolver.cache[id as int],
    ensures
        resolver.is_registered(key),
{
    let at = resolver.cache.index_of(key);
    assert(resolver.cache.len() <= usize::MAX);
    if resolver.pending is Handle {
        assert(at != resolver.pending->id);
    }
}

/// Maps with equal keys are resolved to the same handle.
pub proof fn lemma_equal_maps_share_handle(resolver: ResolverView, i: int, j: int)
    requires
        resolver.consistent(),
        0 <= i < resolver.resolved.len(),
        0 <= j < resolver.resolved.len(),
        resolver.maps[i] == resolver.maps[j],
    ensures
        resolver.resolved[i] == resolver.resolved[j],
{
}

/// Once every map is resolved, the cache holds each distinct key of the
/// maps once, and the table holds a handle for each of their ids and for
/// nothing else: every distinct key was registered once.
pub proof fn lemma_registered_once_per_key(resolver: ResolverView)
    requires
        resolver.consistent(),
        resolver.pending is Nothing,
        resolver.resolved.len() == resolver.maps.len(),
    ensures
        resolver.cache.to_set() == resolver.maps.to_set(),
        resolver.cache.len() == resolver.maps.to_set().len(),
        resolver.registered_below(resolver.cache.len() as int),
{
    let cache = resolver.cache;
    let maps = resolver.maps;
    assert(maps.take(maps.len() as int) =~= maps);
    assert forall|key: ResourceKey| cache.to_set().contains(key) <==> maps.to_set().contains(
        key,
    ) by {
        if cache.contains(key) {
            let k = choose|k: int| 0 <= k < cache.len() && cache[k] == key;
            assert(maps.contains(cache[k]));
        }
        if maps.contains(key) {
            let i = choose|i: int| 0 <= i < maps.len() && maps[i] == key;
            assert(cache.contains(maps[i]));
        }
    }
    assert(cache.to_set() =~= maps.to_set());
    cache.unique_seq_to_set();
}

/// The keys of a list of maps.
pub open spec fn keys_of(maps: Seq<MeshMaterialMap>) -> Seq<ResourceKey> {
    Seq::new(maps.len(), |i: int| maps[i]@)
}

/// Walks the maps of one mesh and gets each its bindless handle.
#[verifier::reject_recursive_types(H)]
pub struct MeshMapResolver<H> {
    image_cache: ImageCache<H>,
    handles: BindlessHandleTable,
    maps: Vec<MeshMaterialMap>,
    mesh_map_gpu_ids: Vec<BindlessImageHandle>,
    pending: Pending,
}

impl<H> View for MeshMapResolver<H> {
    type V = ResolverView;

    closed spec fn view(&self) -> ResolverView {
        ResolverView {
            cache: self.image_cache@,
            table: self.handles@,
            maps: keys_of(self.maps@),
            resolved: self.mesh_map_gpu_ids@,
            pending: self.pending,
        }
    }
}

impl<H> MeshMapResolver<H> {
    /// The part of the invariant that is about the representation.
    pub closed spec fn inner_wf(&self) -> bool {
        self.image_cache.wf()
    }

    /// The invariant of the resolver.
    pub open spec fn wf(&self) -> bool {
        &&& self.inner_wf()
        &&& self@.consistent()
    }

    /// The lazy handles that the cache of the resolver keeps alive, by asset
    /// path.
    pub closed spec fn lazy_handles(&self) -> Map<Seq<char>, H> {
        self.image_cache.lazy_handles()
    }

    /// A resolver for the maps of a mesh, with an empty cache and an empty
    /// handle table.
    pub fn new(maps: Vec<MeshMaterialMap>) -> (resolver: Self)
        ensures
            resolver.wf(),
            resolver@.cache == Seq::<ResourceKey>::empty(),
            resolver@.table == Map::<usize, BindlessImageHandle>::empty(),
            resolver@.maps == keys_of(maps@),
            resolver@.resolved == Seq::<BindlessImageHandle>::empty(),
            resolver@.pending is Nothing,
            resolver.lazy_handles() == Map::<Seq<char>, H>::empty(),
    {
        assert(keys_of(maps@).len() == maps.len() <= usize::MAX);
        MeshMapResolver {
            image_cache: ImageCache::new(),
            handles: BindlessHandleTable::new(),
            maps,
            mesh_map_gpu_ids: Vec::new(),
            pending: Pending::Nothing,
        }
    }

    /// The handles of the maps resolved so far, in the order of the maps.
    pub fn mesh_map_gpu_ids(&self) -> (resolved: &Vec<BindlessImageHandle>)
        ensures
            resolved@ == self@.resolved,
    {
        &self.mesh_map_gpu_ids
    }

    /// What the resolver is waiting for.
    pub fn pending(&self) -> (pending: Pending)
        ensures
            pending == self@.pending,
    {
        self.pending
    }

    /// Takes the resolver apart: the cache, which keeps the lazy handles
    /// alive, the handle table, and the handles of the maps resolved so far.
    pub fn into_parts(self) -> (parts: (
        ImageCache<H>,
        BindlessHandleTable,
        Vec<BindlessImageHandle>,
    ))
        requires
            self.wf(),
        ensures
            parts.0.wf(),
            parts.0@ == self@.cache,
            parts.0.lazy_handles() == self.lazy_handles(),
            parts.1@ == self@.table,
            parts.2@ == self@.resolved,
    {
        (self.image_cache, self.handles, self.mesh_map_gpu_ids)
    }

    /// Takes one step: lets the resolver know what happened, and learns
    /// what to do next.
    ///
    /// - [`ResolverEvent::Resume`], when the resolver waits for nothing:
    ///   it moves on as [`ResolverView::scanned`] says.
    /// - [`ResolverEvent::ImageFetched`], when it waits for an image: a
    ///   failure is passed on, and the resolver waits for nothing, so that
    ///   resuming asks for the same asset again. A decoded image is recorded
    ///   in the cache under the next id, with its lazy handle, and is to be
    ///   registered.
    /// - [`ResolverEvent::ImageRegistered`], when it waits for a handle: the
    ///   handle is entered in the table, the map is resolved to it, and the
    ///   resolver moves on.
    /// - Any other event is refused with [`ResolveError::UnexpectedEvent`].
    pub fn step(&mut self, event: ResolverEvent<H>) -> (result: Result<
        ResolverAction,
        ResolveError,
    >)
        requires
            old(self).wf(),
        ensures
            final(self).wf(),
            match (old(self)@.pending, event) {
                (Pending::Nothing, ResolverEvent::Resume) => {
                    &&& result matches Ok(action)
                    &&& old(self)@.scanned(final(self)@, action)
                    &&& final(self).lazy_handles() == old(self).lazy_handles()
                },
                (Pending::Image, ResolverEvent::ImageFetched(Err(error))) => {
                    &&& result == Err::<ResolverAction, ResolveError>(ResolveError::Load(error))
                    &&& final(self)@ == (ResolverView { pending: Pending::Nothing, ..old(self)@ })
                    &&& final(self).lazy_handles() == old(self).lazy_handles()
                },
                (Pending::Image, ResolverEvent::ImageFetched(Ok(loaded))) => {
                    let key = old(self)@.maps[old(self)@.resolved.len() as int];
                    &&& result matches Ok(ResolverAction::Register { id, image })
                    &&& id == old(self)@.cache.len()
                    &&& image == loaded.image
                    &&& final(self)@ == (ResolverView {
                        cache: old(self)@.cache.push(key),
                        pending: Pending::Handle { id },
                        ..old(self)@
                    })
                    &&& final(self).lazy_handles() == old(self).lazy_handles().insert(
                        key->AssetPath_0,
                        loaded.lazy_handle,
                    )
                },
                (Pending::Handle { id }, ResolverEvent::ImageRegistered(handle)) => {
                    &&& result matches Ok(action)
                    &&& old(self)@.registered(id, handle).scanned(final(self)@, action)
                    &&& final(self).lazy_handles() == old(self).lazy_handles()
                },
                _ => {
                    &&& result == Err::<ResolverAction, ResolveError>(ResolveError::UnexpectedEvent)
                    &&& final(self)@ == old(self)@
                    &&& final(self).lazy_handles() == old(self).lazy_handles()
                },
            },
    {
        match event {
            ResolverEvent::Resume => match self.pending {
                Pending::Nothing => Ok(self.scan()),
                _ => Err(ResolveError::UnexpectedEvent),
            },
            ResolverEvent::ImageFetched(fetched) => match self.pending {
                Pending::Image => {
                    let index = self.mesh_map_gpu_ids.len();
                    let ghost before = self@;
                    assert(before.cache.len() < self.maps.len() <= usize::MAX);
                    match &self.maps[index] {
                        MeshMaterialMap::Asset { path } => {
                            match self.image_cache.finish_load(path.as_str(), fetched) {
                                Err(error) => {
                                    self.pending = Pending::Nothing;
                                    Err(ResolveError::Load(error))
                                },
                                Ok(ImageCacheResponse::Miss { id, image }) => {
                                    self.pending = Pending::Handle { id };
                                    proof {
                                        lemma_recorded(before, self@);
                                    }
                                    Ok(ResolverAction::Register { id, image })
                                },
                                Ok(ImageCacheResponse::Hit { .. }) => vstd::pervasive::unreached(),
                            }
                        },
                        MeshMaterialMap::Placeholder(_) => vstd::pervasive::unreached(),
                    }
                },
                _ => Err(ResolveError::UnexpectedEvent),
            },
            ResolverEvent::ImageRegistered(handle) => match self.pending {
                Pending::Handle { id } => {
                    let ghost before = self@;
                    self.handles.register(id, handle);
                    self.mesh_map_gpu_ids.push(handle);
                    self.pending = Pending::Nothing;
                    proof {
                        let after = self@;
                        assert(after == before.registered(id, handle));
                        lemma_index_of_unique(before.cache, id as int);
                        lemma_cache_stays_within_seen(before, after);
                    }
                    Ok(self.scan())
                },
                _ => Err(ResolveError::UnexpectedEvent),
            },
        }
    }

    /// Resolves maps as long as the cache knows them, and asks for help
    /// with the first one it does not know.
    fn scan(&mut self) -> (action: ResolverAction)
        requires
            old(self).wf(),
            old(self)@.pending is Nothing,
        ensures
            final(self).wf(),
            old(self)@.scanned(final(self)@, action),
            final(self).lazy_handles() == old(self).lazy_handles(),
    {
        while self.mesh_map_gpu_ids.len() < self.maps.len()
            invariant
                self.wf(),
                self@.pending is Nothing,
                self@.maps == old(self)@.maps,
                self@.table == old(self)@.table,
                self@.cache == old(self)@.cache,
                self.lazy_handles() == old(self).lazy_handles(),
                old(self)@.resolved.len() <= self@.resolved.len(),
                self@.resolved.take(old(self)@.resolved.len() as int) == old(self)@.resolved,
                forall|i: int|
                    old(self)@.resolved.len() <= i < self@.resolved.len() ==> {
                        &&& self@.cache.contains(#[trigger] self@.maps[i])
                        &&& self@.is_registered(self@.maps[i])
                        &&& self@.resolved[i] == self@.handle_of(self@.maps[i])
                    },
            decreases self.maps@.len() - self.mesh_map_gpu_ids@.len(),
        {
            let index = self.mesh_map_gpu_ids.len();
            let ghost before = self@;
            assert(self.maps@[index as int]@ == before.maps[index as int]);
            match self.image_cache.load_mesh_map(&self.maps[index]) {
                LoadStep::Ready(ImageCacheResponse::Hit { id }) => {
                    proof {
                        lemma_index_of_unique(before.cache, id as int);
                    }
                    let handle = self.handles.resolve(id);
                    self.mesh_map_gpu_ids.push(handle);
                    proof {
                        assert(self@.resolved.take(old(self)@.resolved.len() as int)
                            =~= before.resolved.take(old(self)@.resolved.len() as int));
                        lemma_cache_stays_within_seen(before, self@);
                    }
                },
                LoadStep::Ready(ImageCacheResponse::Miss { id, image }) => {
                    self.pending = Pending::Handle { id };
                    proof {
                        lemma_recorded(before, self@);
                    }
                    return ResolverAction::Register { id, image };
                },
                LoadStep::Fetch => {
                    self.pending = Pending::Image;
                    let path = match &self.maps[index] {
                        MeshMaterialMap::Asset { path } => path.clone(),
                        MeshMaterialMap::Placeholder(_) => vstd::pervasive::unreached(),
                    };
                    return ResolverAction::Fetch { path };
                },
            }
        }
        ResolverAction::Done
    }
}

/// The keys of the cache stay among the maps seen when the resolver sees
/// more maps, and when the cache records the key of the last map seen.
proof fn lemma_cache_stays_within_seen(before: ResolverView, after: ResolverView)
    requires
        forall|k: int|
            0 <= k < before.cache.len() ==> before.maps.take(before.seen() as int).contains(
                #[trigger] before.cache[k],
            ),
        after.maps == before.maps,
        before.seen() <= after.seen() <= before.maps.len(),
        after.cache == before.cache || (after.seen() > 0 && after.cache == before.cache.push(
            before.maps[after.seen() - 1],
        )),
    ensures
        forall|k: int|
            0 <= k < after.cache.len() ==> after.maps.take(after.seen() as int).contains(
                #[trigger] after.cache[k],
            ),
{
    assert forall|k: int| 0 <= k < after.cache.len() implies after.maps.take(
        after.seen() as int,
    ).contains(#[trigger] after.cache[k]) by {
        if k < before.cache.len() {
            lemma_take_contains_grows(
                before.maps,
                before.seen() as int,
                after.seen() as int,
                before.cache[k],
            );
        } else {
            assert(after.maps.take(after.seen() as int)[after.seen() - 1] == after.cache[k]);
        }
    }
}

/// A resolver that waited for no handle stays consistent when the cache
/// records the key of its first unresolved map and the resolver waits for
/// the handle of that key.
proof fn lemma_recorded(before: ResolverView, after: ResolverView)
    requires
        before.consistent(),
        !(before.pending is Handle),
        before.resolved.len() < before.maps.len(),
        !before.cache.contains(before.maps[before.resolved.len() as int]),
        before.registered_below(before.cache.len() as int),
        after == (ResolverView {
            cache: before.cache.push(before.maps[before.resolved.len() as int]),
            pending: Pending::Handle { id: before.cache.len() as usize },
            ..before
        }),
    ensures
        after.consistent(),
{
    let key = before.maps[before.resolved.len() as int];
    assert forall|i: int| 0 <= i < after.resolved.len() implies {
        &&& after.cache.contains(#[trigger] after.maps[i])
        &&& after.is_registered(after.maps[i])
        &&& after.resolved[i] == after.handle_of(after.maps[i])
    } by {
        lemma_index_of_push(before.cache, key, before.maps[i]);
    }
    lemma_cache_stays_within_seen(before, after);
}

} // verus!
