//! The resource cache: one logical id per distinct texture.
//!
//! The cache is modelled as the sequence of the distinct keys it has
//! recorded, in the order in which they were recorded. The logical id of a
//! key is its position in that sequence, so ids start at zero, grow by one
//! with every newly recorded key, and never change afterwards.
//!
//! Reading and decoding an asset is the caller's work. A request for an
//! asset that is not cached yet is answered with [`LoadStep::Fetch`]; the
//! caller reads the file and hands the outcome to
//! [`ImageCache::finish_load`].

use crate::image::{MeshMaterialMap, RawRgba8Image, ResourceKey};
use crate::sequences::lemma_index_of_unique;
use std::collections::HashMap;
use std::sync::Arc;
use vstd::hash_map::StringHashMap;
use vstd::prelude::*;

verus! {

/// The answer to a load request.
#[derive(Debug, PartialEq, Eq)]
pub enum ImageCacheResponse {
    /// The key was recorded before under `id`; nothing was loaded.
    Hit { id: usize },
    /// The key is new. It now has the logical id `id`, and `image` is to be
    /// registered with the renderer.
    Miss { id: usize, image: Arc<RawRgba8Image> },
}

impl ImageCacheResponse {
    /// The logical id the response carries.
    pub open spec fn id(self) -> usize {
        match self {
            ImageCacheResponse::Hit { id } => id,
            ImageCacheResponse::Miss { id, .. } => id,
        }
    }
}

/// An asset could not be read or decoded.
#[derive(Debug, PartialEq, Eq)]
pub struct LoadError {
    /// The path of the asset.
    pub path: String,
    /// What went wrong, as the loader reported it.
    pub cause: String,
}

/// A decoded asset together with the handle of the lazy computation that
/// produced it.
pub struct LoadedImage<H> {
    pub image: Arc<RawRgba8Image>,
    pub lazy_handle: H,
}

/// What [`ImageCache::load_mesh_map`] decided.
#[derive(Debug, PartialEq, Eq)]
pub enum LoadStep {
    /// The request is answered.
    Ready(ImageCacheResponse),
    /// The map is an asset that is not cached: the caller has to read it and
    /// pass the outcome to [`ImageCache::finish_load`].
    Fetch,
}

/// A recorded asset. The handle is never read; it is kept so that the lazy
/// computation behind it stays alive as long as the cache does.
pub struct CachedImage<H> {
    lazy_handle: H,
    id: usize,
}

/// Deduplicates load requests and issues logical ids.
#[verifier::reject_recursive_types(H)]
pub struct ImageCache<H> {
    loaded_images: StringHashMap<CachedImage<H>>,
    placeholder_images: HashMap<u32, usize>,
    next_id: usize,
    keys: Ghost<Seq<ResourceKey>>,
}

/// The keys a cache holds after a request for `key` has been served.
pub open spec fn after_request(keys: Seq<ResourceKey>, key: ResourceKey) -> Seq<ResourceKey> {
    if keys.contains(key) {
        keys
    } else {
        keys.push(key)
    }
}

/// The four bytes of a colour as one number, first byte highest.
pub open spec fn packed_color(rgba: Seq<u8>) -> int {
    rgba[0] * 0x100_0000 + rgba[1] * 0x1_0000 + rgba[2] * 0x100 + rgba[3]
}

proof fn lemma_packed_color_injective(a: Seq<u8>, b: Seq<u8>)
    requires
        a.len() == 4,
        b.len() == 4,
        packed_color(a) == packed_color(b),
    ensures
        a == b,
{
    assert(a[0] == b[0] && a[1] == b[1] && a[2] == b[2] && a[3] == b[3]);
    assert(a =~= b);
}

fn pack_color(rgba: &[u8; 4]) -> (packed: u32)
    ensures
        packed == packed_color(rgba@),
{
    let r: u32 = rgba[0] as u32;
    let g: u32 = rgba[1] as u32;
    let b: u32 = rgba[2] as u32;
    let a: u32 = rgba[3] as u32;
    r * 0x100_0000 + g * 0x1_0000 + b * 0x100 + a
}

impl<H> View for ImageCache<H> {
    type V = Seq<ResourceKey>;

    /// The recorded keys, oldest first.
    closed spec fn view(&self) -> Seq<ResourceKey> {
        self.keys@
    }
}

impl<H> ImageCache<H> {
    /// The key at position `i` is stored under the id `i`.
    spec fn stored_at(&self, i: int) -> bool {
        match self.keys@[i] {
            ResourceKey::AssetPath(path) => {
                &&& self.loaded_images@.contains_key(path)
                &&& self.loaded_images@[path].id == i
            },
            ResourceKey::PlaceholderColor(rgba) => {
                &&& rgba.len() == 4
                &&& self.placeholder_images@.contains_key(packed_color(rgba) as u32)
                &&& self.placeholder_images@[packed_color(rgba) as u32] == i
            },
        }
    }

    /// The invariant of the cache: the maps hold exactly the recorded keys,
    /// each under its position, and the next id is the number of keys.
    pub closed spec fn wf(&self) -> bool {
        &&& self.keys@.no_duplicates()
        &&& self.keys@.len() == self.next_id
        &&& forall|i: int| 0 <= i < self.keys@.len() ==> self.stored_at(i)
        &&& forall|path: Seq<char>| #[trigger]
            self.loaded_images@.contains_key(path) ==> {
                let id = self.loaded_images@[path].id;
                id < self.next_id && self.keys@[id as int] == ResourceKey::AssetPath(path)
            }
        &&& forall|packed: u32| #[trigger]
            self.placeholder_images@.contains_key(packed) ==> {
                let id = self.placeholder_images@[packed];
                &&& id < self.next_id
                &&& self.keys@[id as int] matches ResourceKey::PlaceholderColor(rgba)
                &&& rgba.len() == 4
                &&& packed_color(rgba) == packed
            }
    }

    /// A colour that is not among the keys has no entry under its packed
    /// value.
    proof fn lemma_absent_color_is_free(&self, rgba: Seq<u8>)
        requires
            self.wf(),
            rgba.len() == 4,
            !self@.contains(ResourceKey::PlaceholderColor(rgba)),
        ensures
            !self.placeholder_images@.contains_key(packed_color(rgba) as u32),
    {
        let packed = packed_color(rgba) as u32;
        if self.placeholder_images@.contains_key(packed) {
            let id = self.placeholder_images@[packed];
            let stored = self.keys@[id as int]->PlaceholderColor_0;
            lemma_packed_color_injective(stored, rgba);
            assert(self@[id as int] == ResourceKey::PlaceholderColor(rgba));
        }
    }

    /// The lazy handles the cache keeps alive, by asset path.
    pub closed spec fn lazy_handles(&self) -> Map<Seq<char>, H> {
        Map::new(
            |path: Seq<char>| self.loaded_images@.contains_key(path),
            |path: Seq<char>| self.loaded_images@[path].lazy_handle,
        )
    }

    /// A well-formed cache holds no key twice, fewer keys than there are
    /// ids, and a lazy handle for exactly the asset paths among its keys.
    pub proof fn lemma_wf(&self)
        requires
            self.wf(),
        ensures
            self@.no_duplicates(),
            self@.len() <= usize::MAX,
            forall|path: Seq<char>|
                self.lazy_handles().contains_key(path) <==> self@.contains(
                    ResourceKey::AssetPath(path),
                ),
    {
        assert forall|path: Seq<char>|
            self.lazy_handles().contains_key(path) <==> self@.contains(
                ResourceKey::AssetPath(path),
            ) by {
            if self@.contains(ResourceKey::AssetPath(path)) {
                let i = choose|i: int|
                    0 <= i < self@.len() && self@[i] == ResourceKey::AssetPath(path);
                assert(self.stored_at(i));
            }
        }
    }

    /// An empty cache; the first id it issues is 0.
    pub fn new() -> (cache: Self)
        ensures
            cache.wf(),
            cache@ == Seq::<ResourceKey>::empty(),
            cache.lazy_handles() == Map::<Seq<char>, H>::empty(),
    {
        let cache = ImageCache {
            loaded_images: StringHashMap::new(),
            placeholder_images: HashMap::new(),
            next_id: 0,
            keys: Ghost(Seq::empty()),
        };
        assert(cache.lazy_handles() =~= Map::<Seq<char>, H>::empty());
        cache
    }

    /// The logical id of `map`, if it has been recorded.
    pub fn lookup(&self, map: &MeshMaterialMap) -> (found: Option<usize>)
        requires
            self.wf(),
        ensures
            match found {
                Some(id) => id < self@.len() && self@[id as int] == map@,
                None => !self@.contains(map@),
            },
    {
        match map {
            MeshMaterialMap::Asset { path } => {
                match self.loaded_images.get(path.as_str()) {
                    Some(cached) => Some(cached.id),
                    None => {
                        assert forall|i: int| 0 <= i < self@.len() implies self@[i] != map@ by {
                            assert(self.stored_at(i));
                        }
                        None
                    },
                }
            },
            MeshMaterialMap::Placeholder(rgba) => {
                let packed = pack_color(rgba);
                match self.placeholder_images.get(&packed) {
                    Some(id) => {
                        proof {
                            let stored = self.keys@[*id as int]->PlaceholderColor_0;
                            lemma_packed_color_injective(stored, rgba@);
                        }
                        Some(*id)
                    },
                    None => {
                        assert forall|i: int| 0 <= i < self@.len() implies self@[i] != map@ by {
                            assert(self.stored_at(i));
                        }
                        None
                    },
                }
            },
        }
    }

    /// Serves a request as far as the cache can without outside work.
    ///
    /// A key that is cached is a hit, and nothing changes. A placeholder
    /// that is not cached is recorded under the next id and comes back as a
    /// miss with its 1x1 image. An asset that is not cached changes nothing
    /// yet: the caller is asked to fetch it.
    ///
    /// A new key needs a free id: a cache that has issued every id cannot
    /// take another one.
    pub fn load_mesh_map(&mut self, map: &MeshMaterialMap) -> (step: LoadStep)
        requires
            old(self).wf(),
            map is Placeholder && !old(self)@.contains(map@) ==> old(self)@.len() < usize::MAX,
        ensures
            final(self).wf(),
            final(self).lazy_handles() == old(self).lazy_handles(),
            step is Ready ==> final(self)@ == after_request(old(self)@, map@),
            if old(self)@.contains(map@) {
                &&& step matches LoadStep::Ready(ImageCacheResponse::Hit { id })
                &&& id < old(self)@.len()
                &&& old(self)@[id as int] == map@
                &&& final(self)@ == old(self)@
            } else {
                match map {
                    MeshMaterialMap::Placeholder(rgba) => {
                        &&& step matches LoadStep::Ready(ImageCacheResponse::Miss { id, image })
                        &&& id == old(self)@.len()
                        &&& image.is_placeholder(rgba@)
                        &&& final(self)@ == old(self)@.push(map@)
                    },
                    MeshMaterialMap::Asset { .. } => {
                        &&& step is Fetch
                        &&& final(self)@ == old(self)@
                    },
                }
            },
    {
        match self.lookup(map) {
            Some(id) => LoadStep::Ready(ImageCacheResponse::Hit { id }),
            None => match map {
                MeshMaterialMap::Asset { .. } => LoadStep::Fetch,
                MeshMaterialMap::Placeholder(init_val) => {
                    let image = Arc::new(RawRgba8Image::placeholder(init_val));
                    let packed = pack_color(init_val);
                    let id = self.next_id;
                    self.next_id = self.next_id + 1;
                    self.placeholder_images.insert(packed, id);
                    proof {
                        self.keys@ = self.keys@.push(map@);
                        old(self).lemma_absent_color_is_free(init_val@);
                        assert(self.stored_at(id as int));
                        assert forall|i: int| 0 <= i < old(self).keys@.len() implies self.stored_at(
                            i,
                        ) by {
                            assert(old(self).stored_at(i));
                        }
                        assert(self.lazy_handles() =~= old(self).lazy_handles());
                    }
                    LoadStep::Ready(ImageCacheResponse::Miss { id, image })
                },
            },
        }
    }

    /// Completes a request for the asset at `path` with what fetching it
    /// gave.
    ///
    /// If the path is cached, the answer is a hit and what was fetched is
    /// dropped. Otherwise a failed fetch is passed on and leaves no trace,
    /// so that a later request fetches again; a decoded image is recorded
    /// under the next id together with its lazy handle, and comes back as a
    /// miss.
    pub fn finish_load(
        &mut self,
        path: &str,
        fetched: Result<LoadedImage<H>, LoadError>,
    ) -> (result: Result<ImageCacheResponse, LoadError>)
        requires
            old(self).wf(),
            fetched is Ok && !old(self)@.contains(ResourceKey::AssetPath(path@)) ==> old(self)@.len()
                < usize::MAX,
        ensures
            final(self).wf(),
            result is Ok ==> final(self)@ == after_request(
                old(self)@,
                ResourceKey::AssetPath(path@),
            ),
            ({
                let key = ResourceKey::AssetPath(path@);
                if old(self)@.contains(key) {
                    &&& result matches Ok(ImageCacheResponse::Hit { id })
                    &&& id < old(self)@.len()
                    &&& old(self)@[id as int] == key
                    &&& final(self)@ == old(self)@
                    &&& final(self).lazy_handles() == old(self).lazy_handles()
                } else {
                    match fetched {
                        Err(error) => {
                            &&& result == Err::<ImageCacheResponse, LoadError>(error)
                            &&& final(self)@ == old(self)@
                            &&& final(self).lazy_handles() == old(self).lazy_handles()
                        },
                        Ok(loaded) => {
                            &&& result matches Ok(ImageCacheResponse::Miss { id, image })
                            &&& id == old(self)@.len()
                            &&& image == loaded.image
                            &&& final(self)@ == old(self)@.push(key)
                            &&& final(self).lazy_handles() == old(self).lazy_handles().insert(
                                path@,
                                loaded.lazy_handle,
                            )
                        },
                    }
                }
            }),
    {
        let ghost key = ResourceKey::AssetPath(path@);
        match self.loaded_images.get(path) {
            Some(cached) => {
                let id = cached.id;
                assert(old(self)@.contains(key));
                return Ok(ImageCacheResponse::Hit { id });
            },
            None => {},
        }
        assert forall|i: int| 0 <= i < self@.len() implies self@[i] != key by {
            assert(self.stored_at(i));
        }
        match fetched {
            Err(error) => Err(error),
            Ok(loaded) => {
                let LoadedImage { image, lazy_handle } = loaded;
                let id = self.next_id;
                self.next_id = self.next_id + 1;
                self.loaded_images.insert(path.to_owned(), CachedImage { lazy_handle, id });
                proof {
                    self.keys@ = self.keys@.push(key);
                    assert(self.stored_at(id as int));
                    assert forall|i: int| 0 <= i < old(self).keys@.len() implies self.stored_at(
                        i,
                    ) by {
                        assert(old(self).stored_at(i));
                    }
                    assert(self.lazy_handles() =~= old(self).lazy_handles().insert(
                        path@,
                        lazy_handle,
                    ));
                }
                Ok(ImageCacheResponse::Miss { id, image })
            },
        }
    }

    /// The lazy handle that is kept for the asset at `path`, if that asset
    /// has been recorded.
    pub fn lazy_handle(&self, path: &str) -> (kept: Option<&H>)
        ensures
            match kept {
                Some(handle) => self.lazy_handles().contains_key(path@) && *handle
                    == self.lazy_handles()[path@],
                None => !self.lazy_handles().contains_key(path@),
            },
    {
        match self.loaded_images.get(path) {
            Some(cached) => Some(&cached.lazy_handle),
            None => None,
        }
    }

    /// Whether every logical id has been issued, so that no further key can
    /// be recorded.
    pub fn ids_exhausted(&self) -> (exhausted: bool)
        requires
            self.wf(),
        ensures
            exhausted == (self@.len() >= usize::MAX),
    {
        self.next_id == usize::MAX
    }
}

/// The keys a cache holds after it has served `requests` in turn, starting
/// with `keys`. A request whose asset could not be fetched is not served and
/// leaves the cache as it was, so it is none of `requests`.
pub open spec fn replay(keys: Seq<ResourceKey>, requests: Seq<ResourceKey>) -> Seq<ResourceKey>
    decreases requests.len(),
{
    if requests.len() == 0 {
        keys
    } else {
        after_request(replay(keys, requests.drop_last()), requests.last())
    }
}

/// Whether request number `i` of `requests` is a miss, for a cache that
/// started with `keys`.
pub open spec fn is_miss(keys: Seq<ResourceKey>, requests: Seq<ResourceKey>, i: int) -> bool {
    !replay(keys, requests.take(i)).contains(requests[i])
}

/// The logical id with which request number `i` of `requests` is answered,
/// for a cache that started with `keys`.
pub open spec fn answered_id(keys: Seq<ResourceKey>, requests: Seq<ResourceKey>, i: int) -> int {
    replay(keys, requests.take(i + 1)).index_of(requests[i])
}

/// How many of `requests` are misses, for a cache that started with `keys`.
pub open spec fn miss_count(keys: Seq<ResourceKey>, requests: Seq<ResourceKey>) -> nat
    decreases requests.len(),
{
    if requests.len() == 0 {
        0
    } else if replay(keys, requests.drop_last()).contains(requests.last()) {
        miss_count(keys, requests.drop_last())
    } else {
        miss_count(keys, requests.drop_last()) + 1
    }
}

/// Serving one more request: the cache after the first `i + 1` requests is
/// the cache after the first `i`, asked for request `i`.
pub proof fn lemma_replay_step(keys: Seq<ResourceKey>, requests: Seq<ResourceKey>, i: int)
    requires
        0 <= i < requests.len(),
    ensures
        replay(keys, requests.take(i + 1)) == after_request(
            replay(keys, requests.take(i)),
            requests[i],
        ),
{
    assert(requests.take(i + 1).drop_last() =~= requests.take(i));
}

/// A cache only grows, at its end: what it held after the first `i`
/// requests it holds, in the same places, after the first `j`, and it never
/// holds a key twice.
pub proof fn lemma_replay_extends(
    keys: Seq<ResourceKey>,
    requests: Seq<ResourceKey>,
    i: int,
    j: int,
)
    requires
        keys.no_duplicates(),
        0 <= i <= j <= requests.len(),
    ensures
        replay(keys, requests.take(j)).no_duplicates(),
        replay(keys, requests.take(i)).is_prefix_of(replay(keys, requests.take(j))),
    decreases j,
{
    if j == 0 {
        assert(requests.take(0) =~= Seq::<ResourceKey>::empty());
    } else if i == j {
        lemma_replay_extends(keys, requests, i - 1, j - 1);
        lemma_replay_step(keys, requests, j - 1);
    } else {
        lemma_replay_extends(keys, requests, i, j - 1);
        lemma_replay_step(keys, requests, j - 1);
    }
}

/// Repeated requests for one key share one logical id, and all but the
/// first of them are hits.
pub proof fn lemma_repeated_request_hits(
    keys: Seq<ResourceKey>,
    requests: Seq<ResourceKey>,
    i: int,
    j: int,
)
    requires
        keys.no_duplicates(),
        0 <= i < j < requests.len(),
        requests[i] == requests[j],
    ensures
        !is_miss(keys, requests, j),
        answered_id(keys, requests, j) == answered_id(keys, requests, i),
{
    let key = requests[i];
    let first = replay(keys, requests.take(i + 1));
    let before = replay(keys, requests.take(j));
    let after = replay(keys, requests.take(j + 1));
    lemma_replay_step(keys, requests, i);
    lemma_replay_step(keys, requests, j);
    lemma_replay_extends(keys, requests, i + 1, j);
    lemma_replay_extends(keys, requests, i + 1, i + 1);
    lemma_served_key_is_held(replay(keys, requests.take(i)), key);
    let at = first.index_of(key);
    assert(before[at] == key);
    assert(after == before);
    lemma_index_of_unique(before, at);
}

/// A request is a miss exactly if its key was neither in the cache at the
/// start nor asked for before.
pub proof fn lemma_miss_iff_first_request(
    keys: Seq<ResourceKey>,
    requests: Seq<ResourceKey>,
    i: int,
)
    requires
        0 <= i < requests.len(),
    ensures
        is_miss(keys, requests, i) <==> !keys.contains(requests[i]) && forall|k: int|
            0 <= k < i ==> requests[k] != requests[i],
{
    lemma_replay_holds(keys, requests.take(i), requests[i]);
    if requests.take(i).contains(requests[i]) {
        let k = choose|k: int| 0 <= k < requests.take(i).len() && requests.take(i)[k] == requests[i];
        assert(requests[k] == requests[i]);
    }
    if exists|k: int| 0 <= k < i && requests[k] == requests[i] {
        let k = choose|k: int| 0 <= k < i && requests[k] == requests[i];
        assert(requests.take(i)[k] == requests[i]);
    }
}

/// Logical ids count up without gaps: a miss is answered with the number of
/// keys that the cache held at the start plus the number of misses before
/// it, and that number is the length of the cache at that moment.
pub proof fn lemma_miss_ids_count_up(keys: Seq<ResourceKey>, requests: Seq<ResourceKey>, i: int)
    requires
        keys.no_duplicates(),
        0 <= i < requests.len(),
        is_miss(keys, requests, i),
    ensures
        answered_id(keys, requests, i) == keys.len() + miss_count(keys, requests.take(i)),
        answered_id(keys, requests, i) == replay(keys, requests.take(i)).len(),
{
    let before = replay(keys, requests.take(i));
    lemma_replay_step(keys, requests, i);
    lemma_replay_extends(keys, requests, i + 1, i + 1);
    lemma_replay_len(keys, requests.take(i));
    assert(before.push(requests[i])[before.len() as int] == requests[i]);
    lemma_index_of_unique(before.push(requests[i]), before.len() as int);
}

/// Logical ids grow: of two misses the later one gets the larger id.
pub proof fn lemma_later_miss_has_larger_id(
    keys: Seq<ResourceKey>,
    requests: Seq<ResourceKey>,
    i: int,
    j: int,
)
    requires
        keys.no_duplicates(),
        0 <= i < j < requests.len(),
        is_miss(keys, requests, i),
        is_miss(keys, requests, j),
    ensures
        answered_id(keys, requests, i) < answered_id(keys, requests, j),
{
    lemma_miss_ids_count_up(keys, requests, i);
    lemma_miss_ids_count_up(keys, requests, j);
    lemma_replay_step(keys, requests, i);
    lemma_replay_extends(keys, requests, i + 1, j);
}

/// A logical id, once given, is never given to another key nor changed: a
/// key of the cache keeps its id whatever is requested later.
pub proof fn lemma_ids_are_stable(
    keys: Seq<ResourceKey>,
    requests: Seq<ResourceKey>,
    key: ResourceKey,
)
    requires
        keys.no_duplicates(),
        keys.contains(key),
    ensures
        replay(keys, requests).contains(key),
        replay(keys, requests).index_of(key) == keys.index_of(key),
{
    assert(requests.take(requests.len() as int) =~= requests);
    assert(requests.take(0) =~= Seq::<ResourceKey>::empty());
    lemma_replay_extends(keys, requests, 0, requests.len() as int);
    let at = keys.index_of(key);
    assert(replay(keys, requests)[at] == key);
    lemma_index_of_unique(replay(keys, requests), at);
}

/// A cache that started empty holds one key for every distinct key that
/// was requested: there are as many misses as distinct keys.
pub proof fn lemma_one_miss_per_key(requests: Seq<ResourceKey>)
    ensures
        miss_count(Seq::<ResourceKey>::empty(), requests) == requests.to_set().len(),
        replay(Seq::<ResourceKey>::empty(), requests).to_set() == requests.to_set(),
{
    let empty = Seq::<ResourceKey>::empty();
    let held = replay(empty, requests);
    assert(requests.take(requests.len() as int) =~= requests);
    lemma_replay_extends(empty, requests, 0, requests.len() as int);
    lemma_replay_len(empty, requests);
    assert forall|key: ResourceKey| held.to_set().contains(key) <==> requests.to_set().contains(
        key,
    ) by {
        lemma_replay_holds(empty, requests, key);
    }
    assert(held.to_set() =~= requests.to_set());
    held.unique_seq_to_set();
}

/// A placeholder colour and an asset path are different keys, whatever
/// bytes and characters they are made of: a request for one never turns a
/// request for the other into a hit.
pub proof fn lemma_placeholder_and_asset_apart(
    keys: Seq<ResourceKey>,
    path: Seq<char>,
    rgba: Seq<u8>,
)
    ensures
        ResourceKey::AssetPath(path) != ResourceKey::PlaceholderColor(rgba),
        after_request(keys, ResourceKey::PlaceholderColor(rgba)).contains(
            ResourceKey::AssetPath(path),
        ) == keys.contains(ResourceKey::AssetPath(path)),
        after_request(keys, ResourceKey::AssetPath(path)).contains(
            ResourceKey::PlaceholderColor(rgba),
        ) == keys.contains(ResourceKey::PlaceholderColor(rgba)),
{
    lemma_served_key_is_held(keys, ResourceKey::PlaceholderColor(rgba));
    lemma_served_key_is_held(keys, ResourceKey::AssetPath(path));
}

/// After a request the cache holds the key that was asked for, and besides
/// it what it held before.
proof fn lemma_served_key_is_held(keys: Seq<ResourceKey>, key: ResourceKey)
    ensures
        after_request(keys, key).contains(key),
        forall|other: ResourceKey|
            after_request(keys, key).contains(other) <==> keys.contains(other) || other == key,
{
    let after = after_request(keys, key);
    if !keys.contains(key) {
        assert(after[keys.len() as int] == key);
    }
    assert forall|other: ResourceKey|
        after.contains(other) <==> keys.contains(other) || other == key by {
        if keys.contains(other) {
            let at = choose|at: int| 0 <= at < keys.len() && keys[at] == other;
            assert(after[at] == other);
        }
        if after.contains(other) && other != key {
            let at = choose|at: int| 0 <= at < after.len() && after[at] == other;
            assert(keys[at] == other);
        }
    }
}

/// A cache holds what it held at the start and what was requested.
proof fn lemma_replay_holds(keys: Seq<ResourceKey>, requests: Seq<ResourceKey>, key: ResourceKey)
    ensures
        replay(keys, requests).contains(key) <==> keys.contains(key) || requests.contains(key),
    decreases requests.len(),
{
    if requests.len() > 0 {
        let earlier = requests.drop_last();
        lemma_replay_holds(keys, earlier, key);
        lemma_served_key_is_held(replay(keys, earlier), requests.last());
        if earlier.contains(key) {
            let at = choose|at: int| 0 <= at < earlier.len() && earlier[at] == key;
            assert(requests[at] == key);
        }
        if requests.contains(key) && key != requests.last() {
            let at = choose|at: int| 0 <= at < requests.len() && requests[at] == key;
            assert(earlier[at] == key);
        }
        if key == requests.last() {
            assert(requests[requests.len() - 1] == key);
        }
    }
}

/// A cache has grown by one key for every miss.
proof fn lemma_replay_len(keys: Seq<ResourceKey>, requests: Seq<ResourceKey>)
    ensures
        replay(keys, requests).len() == keys.len() + miss_count(keys, requests),
    decreases requests.len(),
{
    if requests.len() > 0 {
        lemma_replay_len(keys, requests.drop_last());
    }
}

} // verus!
