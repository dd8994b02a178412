//! The post store: the single owner of all persisted posts. Its model is a
//! map from the 16 identifier bytes to the stored title and content. A post,
//! once created, is never changed or removed; `create` only ever adds a fresh
//! key. Callers serialize access (one operation at a time holds the store
//! exclusively); the contracts below describe each operation in isolation.

use vstd::prelude::*;

use crate::bytes_eq;
use crate::ident::PostId;
use crate::is_utf8;

verus! {

/// A stored post: its identifier, title and content bytes.
pub struct Post {
    pub id: PostId,
    pub title: Vec<u8>,
    pub content: Vec<u8>,
}

impl Post {
    /// Whether the post is well formed: its identifier holds 16 bytes, and
    /// its title and content are text, that is valid UTF-8.
    pub open spec fn wf(&self) -> bool {
        self.id.wf() && is_utf8(self.title@) && is_utf8(self.content@)
    }
}

/// The map modelled by a sequence of posts: later entries win, though a
/// well-formed store never repeats a key.
pub open spec fn map_of(s: Seq<Post>) -> Map<Seq<u8>, (Seq<u8>, Seq<u8>)>
    decreases s.len(),
{
    if s.len() == 0 {
        Map::empty()
    } else {
        map_of(s.drop_last()).insert(s.last().id@, (s.last().title@, s.last().content@))
    }
}

/// A key is in the map exactly when some post carries it.
pub proof fn lemma_map_of_contains(s: Seq<Post>, k: Seq<u8>)
    ensures
        map_of(s).contains_key(k) <==> exists|i: int| 0 <= i < s.len() && (#[trigger] s[i].id)@ == k,
    decreases s.len(),
{
    if s.len() > 0 {
        lemma_map_of_contains(s.drop_last(), k);
        if s.last().id@ == k {
            assert(s[s.len() - 1].id@ == k);
        } else if map_of(s).contains_key(k) {
            let i = choose|i: int| 0 <= i < s.len() - 1 && (#[trigger] s.drop_last()[i].id)@ == k;
            assert(s[i].id@ == k);
        } else {
            assert forall|i: int| 0 <= i < s.len() implies (#[trigger] s[i].id)@ != k by {
                if i < s.len() - 1 {
                    assert(s.drop_last()[i].id@ == s[i].id@);
                }
            }
        }
    }
}

/// With pairwise distinct keys, the post at any index gives the map's value
/// for its key.
pub proof fn lemma_map_of_value(s: Seq<Post>, i: int)
    requires
        0 <= i < s.len(),
        forall|a: int, b: int|
            0 <= a < b < s.len() ==> (#[trigger] s[a].id)@ != (#[trigger] s[b].id)@,
    ensures
        map_of(s).contains_key(s[i].id@),
        map_of(s)[s[i].id@] == (s[i].title@, s[i].content@),
    decreases s.len(),
{
    if i == s.len() - 1 {
    } else {
        assert forall|a: int, b: int|
            0 <= a < b < s.drop_last().len() implies (#[trigger] s.drop_last()[a].id)@
            != (#[trigger] s.drop_last()[b].id)@ by {
            assert(s.drop_last()[a].id@ == s[a].id@);
            assert(s.drop_last()[b].id@ == s[b].id@);
        }
        lemma_map_of_value(s.drop_last(), i);
        assert(s.drop_last()[i].id@ == s[i].id@);
        assert(s[i].id@ != s.last().id@);
    }
}

/// An error of the store's persistence step.
#[derive(Debug)]
pub enum StoreError {
    /// The freshly minted identifier was already present, so nothing was
    /// written: the single insert is all-or-nothing.
    DuplicateId,
}

/// The store owning every post.
pub struct PostStore {
    posts: Vec<Post>,
}

impl View for PostStore {
    type V = Map<Seq<u8>, (Seq<u8>, Seq<u8>)>;

    closed spec fn view(&self) -> Map<Seq<u8>, (Seq<u8>, Seq<u8>)> {
        map_of(self.posts@)
    }
}

impl PostStore {
    /// Whether every stored post is well formed and no two share a key.
    pub closed spec fn wf(&self) -> bool {
        &&& forall|i: int| 0 <= i < self.posts@.len() ==> (#[trigger] self.posts@[i]).wf()
        &&& forall|a: int, b: int|
            0 <= a < b < self.posts@.len() ==> (#[trigger] self.posts@[a].id)@
                != (#[trigger] self.posts@[b].id)@
    }

    /// An empty store.
    pub fn new() -> (r: PostStore)
        ensures
            r.wf(),
            r@ == Map::<Seq<u8>, (Seq<u8>, Seq<u8>)>::empty(),
    {
        PostStore { posts: Vec::new() }
    }

    /// Whether a post with the given identifier exists.
    pub fn contains_id(&self, id: &PostId) -> (r: bool)
        ensures
            r <==> self@.contains_key(id@),
    {
        let mut i: usize = 0;
        while i < self.posts.len()
            invariant
                i <= self.posts@.len(),
                forall|t: int| 0 <= t < i ==> (#[trigger] self.posts@[t].id)@ != id@,
            decreases self.posts@.len() - i,
        {
            if bytes_eq(self.posts[i].id.as_bytes(), id.as_bytes()) {
                proof {
                    lemma_map_of_contains(self.posts@, id@);
                }
                return true;
            }
            i = i + 1;
        }
        proof {
            lemma_map_of_contains(self.posts@, id@);
        }
        false
    }

    /// Returns the post with the given identifier, or `None` exactly when no
    /// post has it. Looking an absent identifier up is not an error.
    pub fn get_by_id(&self, id: &PostId) -> (r: Option<&Post>)
        requires
            self.wf(),
        ensures
            match r {
                Some(p) => self@.contains_key(id@) && p.wf() && p.id@ == id@ && self@[id@]
                    == (p.title@, p.content@) && is_utf8(p.title@) && is_utf8(p.content@),
                None => !self@.contains_key(id@),
            },
    {
        let mut i: usize = 0;
        while i < self.posts.len()
            invariant
                self.wf(),
                i <= self.posts@.len(),
                forall|t: int| 0 <= t < i ==> (#[trigger] self.posts@[t].id)@ != id@,
            decreases self.posts@.len() - i,
        {
            if bytes_eq(self.posts[i].id.as_bytes(), id.as_bytes()) {
                proof {
                    lemma_map_of_value(self.posts@, i as int);
                }
                return Some(&self.posts[i]);
            }
            i = i + 1;
        }
        proof {
            lemma_map_of_contains(self.posts@, id@);
        }
        None
    }

    /// Persists a post under the given identifier. The insert is
    /// all-or-nothing: it succeeds exactly when the identifier is fresh, and
    /// on failure the store is unchanged.
    pub fn insert_new(&mut self, id: PostId, title: Vec<u8>, content: Vec<u8>) -> (r: Result<
        (),
        StoreError,
    >)
        requires
            old(self).wf(),
            id.wf(),
            is_utf8(title@),
            is_utf8(content@),
        ensures
            final(self).wf(),
            r is Ok <==> !old(self)@.contains_key(id@),
            r is Ok ==> final(self)@ == old(self)@.insert(id@, (title@, content@)),
            r is Err ==> final(self)@ == old(self)@,
    {
        if self.contains_id(&id) {
            return Err(StoreError::DuplicateId);
        }
        proof {
            lemma_map_of_contains(self.posts@, id@);
        }
        let ghost s0 = self.posts@;
        let post = Post { id, title, content };
        self.posts.push(post);
        proof {
            assert(self.posts@.drop_last() =~= s0);
            assert forall|a: int, b: int|
                0 <= a < b < self.posts@.len() implies (#[trigger] self.posts@[a].id)@
                != (#[trigger] self.posts@[b].id)@ by {
                if b < self.posts@.len() - 1 {
                    assert(s0[a].id@ != s0[b].id@);
                } else {
                    assert(s0[a].id@ == self.posts@[a].id@);
                }
            }
        }
        Ok(())
    }

    /// Mints a fresh random identifier, persists `(id, title, content)` and
    /// returns the identifier. Succeeds unless the random identifier collides
    /// with a stored one — on an empty store success is certain — and on
    /// failure it reports the error and writes nothing.
    pub fn create(&mut self, title: Vec<u8>, content: Vec<u8>) -> (r: Result<PostId, StoreError>)
        requires
            old(self).wf(),
            is_utf8(title@),
            is_utf8(content@),
        ensures
            final(self).wf(),
            r matches Ok(id) ==> id.wf() && !old(self)@.contains_key(id@) && final(self)@ == old(
                self,
            )@.insert(id@, (title@, content@)),
            r is Err ==> final(self)@ == old(self)@ && old(self)@.dom() != Set::<Seq<u8>>::empty(),
    {
        let bytes = fresh_id_bytes();
        let id = PostId::from_bytes(bytes);
        let ret = id.duplicate();
        let ghost idv = id@;
        match self.insert_new(id, title, content) {
            Ok(()) => Ok(ret),
            Err(e) => {
                proof {
                    assert(old(self)@.dom().contains(idv));
                    assert(!Set::<Seq<u8>>::empty().contains(idv));
                }
                Err(e)
            },
        }
    }
}

/// Relies on `uuid::Uuid::new_v4`: a freshly generated random 16-byte
/// (version 4) identifier. Nothing is assumed of its value beyond its length;
/// distinctness of two draws is never taken for granted.
#[verifier::external_body]
fn fresh_id_bytes() -> (r: Vec<u8>)
    ensures
        r@.len() == 16,
{
    uuid::Uuid::new_v4().into_bytes().to_vec()
}

/// A run of successful `create` calls, however interleaved with other reads:
/// each returned identifier was absent from the store it was minted against,
/// and each call's final store is its initial one with that identifier added.
pub open spec fn create_chain(
    maps: Seq<Map<Seq<u8>, (Seq<u8>, Seq<u8>)>>,
    ids: Seq<Seq<u8>>,
    vals: Seq<(Seq<u8>, Seq<u8>)>,
) -> bool {
    &&& maps.len() == ids.len() + 1
    &&& vals.len() == ids.len()
    &&& forall|i: int|
        0 <= i < ids.len() ==> !(#[trigger] maps[i]).contains_key(ids[i]) && maps[i + 1]
            == maps[i].insert(ids[i], vals[i])
}

/// Every identifier returned earlier in a chain of creates is still present
/// in every later store.
proof fn lemma_chain_member(
    maps: Seq<Map<Seq<u8>, (Seq<u8>, Seq<u8>)>>,
    ids: Seq<Seq<u8>>,
    vals: Seq<(Seq<u8>, Seq<u8>)>,
    i: int,
    k: int,
)
    requires
        create_chain(maps, ids, vals),
        0 <= i < k <= ids.len(),
    ensures
        maps[k].contains_key(ids[i]),
    decreases k - i,
{
    if k == i + 1 {
        assert(!maps[i].contains_key(ids[i]));
        assert(maps[k] == maps[i].insert(ids[i], vals[i]));
    } else {
        lemma_chain_member(maps, ids, vals, i, k - 1);
        assert(!maps[k - 1].contains_key(ids[k - 1]));
        assert(maps[k] == maps[k - 1].insert(ids[k - 1], vals[k - 1]));
    }
}

/// Uniqueness: the identifiers returned by any number of serialized `create`
/// calls are pairwise distinct.
pub proof fn lemma_create_ids_distinct(
    maps: Seq<Map<Seq<u8>, (Seq<u8>, Seq<u8>)>>,
    ids: Seq<Seq<u8>>,
    vals: Seq<(Seq<u8>, Seq<u8>)>,
)
    requires
        create_chain(maps, ids, vals),
    ensures
        forall|i: int, j: int| 0 <= i < j < ids.len() ==> ids[i] != ids[j],
{
    assert forall|i: int, j: int| 0 <= i < j < ids.len() implies ids[i] != ids[j] by {
        lemma_chain_member(maps, ids, vals, i, j);
    }
}

/// Immutability: a post, once created, is never changed or removed. A
/// successful `create` adds a fresh key and leaves every stored post exactly
/// as it was.
pub proof fn lemma_create_preserves_posts(
    m0: Map<Seq<u8>, (Seq<u8>, Seq<u8>)>,
    id: Seq<u8>,
    val: (Seq<u8>, Seq<u8>),
    k: Seq<u8>,
)
    requires
        !m0.contains_key(id),
        m0.contains_key(k),
    ensures
        m0.insert(id, val).contains_key(k),
        m0.insert(id, val)[k] == m0[k],
{
}

/// Round trip: reading, from the store a successful `create` leaves behind,
/// the identifier it returned yields exactly the created title and content.
pub proof fn lemma_create_round_trip(
    m0: Map<Seq<u8>, (Seq<u8>, Seq<u8>)>,
    id: Seq<u8>,
    title: Seq<u8>,
    content: Seq<u8>,
)
    ensures
        m0.insert(id, (title, content)).contains_key(id),
        m0.insert(id, (title, content))[id] == (title, content),
{
}

} // verus!
