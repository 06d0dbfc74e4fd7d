use vstd::prelude::*;

use crate::error::FfiError;

verus! {

#[verifier::external_type_specification]
#[verifier::external_body]
pub struct ExLibrary(libloading::Library);

/// Relies on libloading::Library::new: asks the platform loader to open the
/// shared library at `path`. Whether it succeeds, and which handle comes
/// back, depends on what is on disk, so nothing is assumed of the outcome;
/// the error is carried as the loader's own message.
#[verifier::external_body]
fn open_native(path: &String) -> Result<libloading::Library, String> {
    match libloading::Library::new(path.as_str()) {
        Ok(lib) => Ok(lib),
        Err(e) => Err(e.to_string()),
    }
}

/// One loaded shared library: its canonical path, the identity token the
/// cache issued for this particular native open, and the native handle while
/// the library is open. Closing drops the handle (releasing it) and is
/// idempotent; the path and the identity survive a close.
#[derive(Debug)]
pub struct SharedLibrary {
    path_name: String,
    id: u64,
    lib: Option<libloading::Library>,
}

impl SharedLibrary {
    /// The canonical path this library was opened from.
    pub closed spec fn spec_path(&self) -> Seq<char> {
        self.path_name@
    }

    /// The identity token of this native open; two handles are the same
    /// native handle exactly when their identities are equal.
    pub closed spec fn spec_id(&self) -> u64 {
        self.id
    }

    pub closed spec fn is_open(&self) -> bool {
        self.lib is Some
    }

    /// Open the library at `path`, stamping it with the given identity.
    /// Success is the platform loader's decision; on failure the loader's
    /// message is carried in a `LoadError` naming this path.
    pub fn new(path: &String, id: u64) -> (r: Result<SharedLibrary, FfiError>)
        ensures
            r matches Ok(s) ==> s.spec_path() == path@ && s.spec_id() == id && s.is_open(),
            r matches Err(e) ==> (e matches FfiError::LoadError { path: p, message: _m } && p@
                == path@),
    {
        match open_native(path) {
            Ok(lib) => Ok(SharedLibrary { path_name: path.clone(), id, lib: Some(lib) }),
            Err(message) => Err(FfiError::LoadError { path: path.clone(), message }),
        }
    }

    /// The identity token of this handle.
    pub fn get_pointer(&self) -> (r: u64)
        ensures
            r == self.spec_id(),
    {
        self.id
    }

    pub fn path_name(&self) -> (r: &String)
        ensures
            r@ == self.spec_path(),
    {
        &self.path_name
    }

    pub fn is_closed(&self) -> (r: bool)
        ensures
            r == !self.is_open(),
    {
        self.lib.is_none()
    }

    /// Release the native handle. Idempotent; the identity and path remain.
    pub fn close(&mut self)
        ensures
            !final(self).is_open(),
            final(self).spec_path() == old(self).spec_path(),
            final(self).spec_id() == old(self).spec_id(),
    {
        self.lib = None;
    }

    /// The native handle, for the embedding program to resolve symbols
    /// through; `None` once the library is closed.
    pub fn native(&self) -> (r: Option<&libloading::Library>)
        ensures
            r is Some <==> self.is_open(),
    {
        self.lib.as_ref()
    }
}

/// The process-wide library cache: at most one live handle per canonical
/// path. Re-requesting an open library returns the existing handle;
/// reopening after a close issues a fresh identity. The embedding program is
/// expected to guard the one cache value behind its lock of choice.
pub struct ExternalLibs {
    libraries: Vec<SharedLibrary>,
    next_id: u64,
}

impl ExternalLibs {
    pub closed spec fn entries(&self) -> Seq<SharedLibrary> {
        self.libraries@
    }

    pub closed spec fn spec_next_id(&self) -> u64 {
        self.next_id
    }

    /// Cache well-formedness: identities are below the issue counter and
    /// unique, and there is at most one entry per canonical path.
    pub open spec fn wf(&self) -> bool {
        &&& forall|i: int|
            0 <= i < self.entries().len() ==> (#[trigger] self.entries()[i]).spec_id()
                < self.spec_next_id()
        &&& forall|i: int, j: int|
            0 <= i < self.entries().len() && 0 <= j < self.entries().len() && i != j ==> (
            #[trigger] self.entries()[i]).spec_id() != (#[trigger] self.entries()[j]).spec_id()
        &&& forall|i: int, j: int|
            0 <= i < self.entries().len() && 0 <= j < self.entries().len() && i != j ==> (
            #[trigger] self.entries()[i]).spec_path() != (#[trigger] self.entries()[j]).spec_path()
    }

    /// Whether some open entry carries this path.
    pub open spec fn has_open(&self, path: Seq<char>) -> bool {
        exists|i: int|
            0 <= i < self.entries().len() && (#[trigger] self.entries()[i]).spec_path() == path
                && self.entries()[i].is_open()
    }

    pub open spec fn open_index(&self, path: Seq<char>) -> int {
        choose|i: int|
            0 <= i < self.entries().len() && (#[trigger] self.entries()[i]).spec_path() == path
                && self.entries()[i].is_open()
    }

    /// The identity of the live handle cached for this path, if any.
    pub open spec fn cached_open_id(&self, path: Seq<char>) -> Option<u64> {
        if self.has_open(path) {
            Some(self.entries()[self.open_index(path)].spec_id())
        } else {
            None
        }
    }

    pub fn new() -> (r: ExternalLibs)
        ensures
            r.wf(),
            r.entries() == Seq::<SharedLibrary>::empty(),
    {
        ExternalLibs { libraries: Vec::new(), next_id: 0 }
    }

    /// Look a handle up by its identity token.
    pub fn get_lib(&self, id: u64) -> (r: Option<&SharedLibrary>)
        ensures
            r matches Some(s) ==> s.spec_id() == id,
            r is None ==> forall|i: int|
                0 <= i < self.entries().len() ==> (#[trigger] self.entries()[i]).spec_id() != id,
    {
        let n = self.libraries.len();
        let mut i: usize = 0;
        while i < n
            invariant
                i <= n,
                n == self.entries().len(),
                forall|j: int| 0 <= j < i ==> (#[trigger] self.entries()[j]).spec_id() != id,
            decreases n - i,
        {
            if self.libraries[i].get_pointer() == id {
                return Some(&self.libraries[i]);
            }
            i = i + 1;
        }
        None
    }

    /// Whether the handle with this identity is currently open.
    pub open spec fn spec_is_open_id(&self, id: u64) -> bool {
        exists|i: int|
            0 <= i < self.entries().len() && (#[trigger] self.entries()[i]).spec_id() == id
                && self.entries()[i].is_open()
    }

    pub fn is_open(&self, id: u64) -> (r: bool)
        ensures
            r == self.spec_is_open_id(id),
    {
        let n = self.libraries.len();
        let mut i: usize = 0;
        while i < n
            invariant
                i <= n,
                n == self.entries().len(),
                forall|j: int|
                    0 <= j < i ==> !((#[trigger] self.entries()[j]).spec_id() == id
                        && self.entries()[j].is_open()),
            decreases n - i,
        {
            if self.libraries[i].get_pointer() == id && !self.libraries[i].is_closed() {
                return true;
            }
            i = i + 1;
        }
        false
    }
}

/// What one successful `open` does to the cache: if a live handle for the
/// path was cached, it is returned and nothing changes; otherwise a fresh
/// identity (the issue counter's value) is bound to the path, the counter
/// advances, and no other path is touched.
pub open spec fn open_transition(
    pre: ExternalLibs,
    post: ExternalLibs,
    path: Seq<char>,
    id: u64,
) -> bool {
    &&& post.wf()
    &&& if pre.cached_open_id(path) is Some {
        post == pre && Some(id) == pre.cached_open_id(path)
    } else {
        &&& id == pre.spec_next_id()
        &&& post.spec_next_id() == pre.spec_next_id() + 1
        &&& post.cached_open_id(path) == Some(id)
        &&& forall|q: Seq<char>|
            q != path ==> #[trigger] post.cached_open_id(q) == pre.cached_open_id(q)
    }
}

/// What `close` does to the cache: the handle with this identity (if any,
/// and if open) is released, its path loses its live entry, every other path
/// is untouched, and the issue counter does not move.
pub open spec fn close_transition(pre: ExternalLibs, post: ExternalLibs, id: u64) -> bool {
    &&& post.wf()
    &&& post.spec_next_id() == pre.spec_next_id()
    &&& forall|q: Seq<char>|
        #[trigger] post.cached_open_id(q) == if pre.cached_open_id(q) == Some(id) {
            None
        } else {
            pre.cached_open_id(q)
        }
}

impl ExternalLibs {
    /// An open entry at index `i` with this path is the cached one.
    proof fn lemma_cached_is(&self, path: Seq<char>, i: int)
        requires
            self.wf(),
            0 <= i < self.entries().len(),
            self.entries()[i].spec_path() == path,
            self.entries()[i].is_open(),
        ensures
            self.cached_open_id(path) == Some(self.entries()[i].spec_id()),
    {
        assert(self.has_open(path));
        let k = self.open_index(path);
        assert(k == i);
    }

    /// With no open entry carrying the path, nothing is cached for it.
    proof fn lemma_cached_none(&self, path: Seq<char>)
        requires
            forall|i: int|
                0 <= i < self.entries().len() ==> !((#[trigger] self.entries()[i]).spec_path()
                    == path && self.entries()[i].is_open()),
        ensures
            self.cached_open_id(path) is None,
    {
        if self.has_open(path) {
            let k = self.open_index(path);
            assert(false);
        }
    }

    /// A cached identity was issued by the counter.
    proof fn lemma_cached_id_below(&self, path: Seq<char>)
        requires
            self.wf(),
            self.cached_open_id(path) is Some,
        ensures
            self.cached_open_id(path).unwrap() < self.spec_next_id(),
    {
        let k = self.open_index(path);
    }

    /// Open the library at this canonical path, deduplicating against the
    /// cache: a live handle for the path is always returned as-is, with no
    /// second native open; otherwise the platform loader is asked and, on
    /// success, the fresh handle replaces any closed entry for the path (or
    /// is added) under a fresh identity. Load failures change nothing and
    /// are never retried here; besides the loader's own refusals, the one
    /// failure of this cache's making is an exhausted identity counter.
    pub fn open(&mut self, path: &String) -> (r: Result<u64, FfiError>)
        requires
            old(self).wf(),
        ensures
            final(self).wf(),
            old(self).cached_open_id(path@) is Some ==> (r matches Ok(id) && Some(id)
                == old(self).cached_open_id(path@) && *final(self) == *old(self)),
            old(self).cached_open_id(path@) is None && old(self).spec_next_id() == u64::MAX ==> r
                is Err,
            r matches Ok(id) ==> open_transition(*old(self), *final(self), path@, id),
            r matches Err(e) ==> *final(self) == *old(self) && (e matches FfiError::LoadError {
                path: p,
                message: _m,
            } && p@ == path@),
    {
        let n = self.libraries.len();
        let mut i: usize = 0;
        let mut found: usize = n;
        while i < n
            invariant
                i <= n,
                found <= n,
                n == self.entries().len(),
                *self == *old(self),
                found == n ==> forall|j: int|
                    0 <= j < i ==> (#[trigger] self.entries()[j]).spec_path() != path@,
                found < n ==> self.entries()[found as int].spec_path() == path@,
            decreases n - i,
        {
            if found == n && *self.libraries[i].path_name() == *path {
                found = i;
            }
            i = i + 1;
        }
        let ghost pre = *self;
        proof {
            // at most the entry at `found` carries this path
            assert(pre.wf());
            assert(n == pre.entries().len());
            assert forall|j: int|
                0 <= j < pre.entries().len() && (found == n || j != found as int) implies (
            #[trigger] pre.entries()[j]).spec_path() != path@ by {
                if found == n {
                    assert(pre.entries()[j].spec_path() != path@);
                } else if j != found as int {
                    assert(pre.entries()[j].spec_path() != pre.entries()[found as int].spec_path());
                    assert(pre.entries()[found as int].spec_path() == path@);
                }
            }
        }
        if found < n {
            if !self.libraries[found].is_closed() {
                let id = self.libraries[found].get_pointer();
                proof {
                    self.lemma_cached_is(path@, found as int);
                }
                return Ok(id);
            }
        }
        // No live handle for this path: every entry either has another path
        // or is the closed entry at `found`.
        proof {
            assert forall|j: int|
                0 <= j < pre.entries().len() implies !((#[trigger] pre.entries()[j]).spec_path()
                == path@ && pre.entries()[j].is_open()) by {
                if !(found < n && j == found as int) {
                    assert(pre.entries()[j].spec_path() != path@);
                }
            }
            pre.lemma_cached_none(path@);
        }
        if self.next_id == u64::MAX {
            return Err(
                FfiError::LoadError {
                    path: path.clone(),
                    message: "library identity space exhausted".to_owned(),
                },
            );
        }
        let fresh = SharedLibrary::new(path, self.next_id);
        match fresh {
            Err(e) => Err(e),
            Ok(s) => {
                let id = self.next_id;
                self.next_id = self.next_id + 1;
                if found < n {
                    self.libraries.remove(found);
                    self.libraries.insert(found, s);
                } else {
                    self.libraries.push(s);
                }
                proof {
                    let post = *self;
                    let f = if found < n {
                        found as int
                    } else {
                        n as int
                    };
                    assert(post.entries().len() == if found < n {
                        n as int
                    } else {
                        n + 1
                    });
                    assert(post.entries()[f].spec_path() == path@);
                    assert(post.entries()[f].spec_id() == id);
                    assert(post.entries()[f].is_open());
                    assert forall|j: int|
                        0 <= j < post.entries().len() && j != f implies #[trigger] post.entries()[j]
                        == pre.entries()[j] by {}
                    assert forall|a: int|
                        0 <= a < post.entries().len() implies (#[trigger] post.entries()[
                    a]).spec_id() < post.spec_next_id() by {
                        if a != f {
                            assert(post.entries()[a] == pre.entries()[a]);
                        }
                    }
                    assert forall|a: int, b: int|
                        0 <= a < post.entries().len() && 0 <= b < post.entries().len() && a
                            != b implies (#[trigger] post.entries()[a]).spec_id() != (
                    #[trigger] post.entries()[b]).spec_id() by {
                        if a != f && b != f {
                            assert(post.entries()[a] == pre.entries()[a]);
                            assert(post.entries()[b] == pre.entries()[b]);
                        } else if a == f {
                            assert(post.entries()[b] == pre.entries()[b]);
                            assert(pre.entries()[b].spec_id() < pre.spec_next_id());
                        } else {
                            assert(post.entries()[a] == pre.entries()[a]);
                            assert(pre.entries()[a].spec_id() < pre.spec_next_id());
                        }
                    }
                    assert forall|a: int, b: int|
                        0 <= a < post.entries().len() && 0 <= b < post.entries().len() && a
                            != b implies (#[trigger] post.entries()[a]).spec_path() != (
                    #[trigger] post.entries()[b]).spec_path() by {
                        if a != f && b != f {
                            assert(post.entries()[a] == pre.entries()[a]);
                            assert(post.entries()[b] == pre.entries()[b]);
                        } else if a == f {
                            assert(post.entries()[b] == pre.entries()[b]);
                            assert(pre.entries()[b].spec_path() != path@);
                        } else {
                            assert(post.entries()[a] == pre.entries()[a]);
                            assert(pre.entries()[a].spec_path() != path@);
                        }
                    }
                    assert(post.wf());
                    post.lemma_cached_is(path@, f);
                    assert forall|q: Seq<char>| q != path@ implies #[trigger] post.cached_open_id(q)
                        == pre.cached_open_id(q) by {
                        if pre.has_open(q) {
                            let k = pre.open_index(q);
                            assert(pre.entries()[k].spec_path() == q);
                            assert(k != f);
                            pre.lemma_cached_is(q, k);
                            post.lemma_cached_is(q, k);
                        } else {
                            assert forall|j: int|
                                0 <= j < pre.entries().len() implies !((#[trigger] pre.entries()[
                            j]).spec_path() == q && pre.entries()[j].is_open()) by {
                                if pre.entries()[j].spec_path() == q && pre.entries()[j].is_open() {
                                    assert(pre.has_open(q));
                                }
                            }
                            pre.lemma_cached_none(q);
                            assert forall|j: int|
                                0 <= j < post.entries().len() implies !((#[trigger] post.entries()[
                            j]).spec_path() == q && post.entries()[j].is_open()) by {
                                if j != f && j < pre.entries().len() {
                                    if post.entries()[j].spec_path() == q && post.entries()[j].is_open() {
                                        assert(pre.has_open(q));
                                    }
                                }
                            }
                            post.lemma_cached_none(q);
                        }
                    }
                }
                Ok(id)
            },
        }
    }

    /// Close the handle with this identity: its native handle is released
    /// and its path loses its cache entry. Closing an unknown or already
    /// closed identity is a no-op, not an error.
    pub fn close(&mut self, id: u64)
        requires
            old(self).wf(),
        ensures
            final(self).wf(),
            close_transition(*old(self), *final(self), id),
    {
        let n = self.libraries.len();
        let mut i: usize = 0;
        while i < n
            invariant
                i <= n,
                n == self.entries().len(),
                self.wf(),
                *self == *old(self),
                forall|j: int| 0 <= j < i ==> (#[trigger] self.entries()[j]).spec_id() != id,
            decreases n - i,
        {
            if self.libraries[i].get_pointer() == id {
                if self.libraries[i].is_closed() {
                    proof {
                        lemma_no_open_id(self, id);
                    }
                    return ;
                }
                let ghost pre = *self;
                let mut entry = self.libraries.remove(i);
                entry.close();
                self.libraries.insert(i, entry);
                proof {
                    let post = *self;
                    assert(post.entries().len() == pre.entries().len());
                    assert(forall|j: int|
                        0 <= j < post.entries().len() && j != i ==> post.entries()[j]
                            == pre.entries()[j]);
                    assert(post.entries()[i as int].spec_path() == pre.entries()[i as int].spec_path());
                    assert(post.entries()[i as int].spec_id() == id);
                    assert(!post.entries()[i as int].is_open());
                    assert(post.wf());
                    let closed_path = pre.entries()[i as int].spec_path();
                    pre.lemma_cached_is(closed_path, i as int);
                    assert forall|q: Seq<char>| true implies #[trigger] post.cached_open_id(q) == (
                    if pre.cached_open_id(q) == Some(id) {
                        None
                    } else {
                        pre.cached_open_id(q)
                    }) by {
                        if q == closed_path {
                            assert forall|j: int|
                                0 <= j < post.entries().len() implies !((#[trigger] post.entries()[j]).spec_path() == q && post.entries()[j].is_open()) by {
                                if j != i {
                                    assert(pre.entries()[j].spec_path() != closed_path);
                                }
                            }
                            post.lemma_cached_none(q);
                        } else {
                            if pre.has_open(q) {
                                let k = pre.open_index(q);
                                assert(k != i);
                                pre.lemma_cached_is(q, k);
                                post.lemma_cached_is(q, k);
                                assert(pre.cached_open_id(q) != Some(id));
                            } else {
                                assert forall|j: int|
                                    0 <= j < pre.entries().len() implies !((
                                #[trigger] pre.entries()[j]).spec_path() == q && pre.entries()[j].is_open()) by {
                                    if pre.entries()[j].spec_path() == q && pre.entries()[j].is_open() {
                                        assert(pre.has_open(q));
                                    }
                                }
                                pre.lemma_cached_none(q);
                                assert forall|j: int|
                                    0 <= j < post.entries().len() implies !((
                                #[trigger] post.entries()[j]).spec_path() == q && post.entries()[j].is_open()) by {
                                    if j != i {
                                        if post.entries()[j].spec_path() == q && post.entries()[j].is_open() {
                                            assert(pre.has_open(q));
                                        }
                                    }
                                }
                                post.lemma_cached_none(q);
                            }
                        }
                    }
                }
                return ;
            }
            i = i + 1;
        }
        proof {
            lemma_no_open_id(self, id);
        }
    }
}

/// With no open entry carrying this identity, no path caches it, so a close
/// of it is a no-op transition.
proof fn lemma_no_open_id(c: &ExternalLibs, id: u64)
    requires
        c.wf(),
        forall|i: int|
            0 <= i < c.entries().len() ==> !((#[trigger] c.entries()[i]).spec_id() == id
                && c.entries()[i].is_open()),
    ensures
        close_transition(*c, *c, id),
{
    assert forall|q: Seq<char>| true implies #[trigger] c.cached_open_id(q) != Some(id) by {
        if c.has_open(q) {
            let k = c.open_index(q);
        }
    }
}

/// Law: two opens of the same canonical path, with no close in between,
/// yield identity-equal handles: the second request observes the cached
/// instance.
pub proof fn lemma_open_twice_same_handle(
    c0: ExternalLibs,
    c1: ExternalLibs,
    c2: ExternalLibs,
    path: Seq<char>,
    id1: u64,
    id2: u64,
)
    requires
        open_transition(c0, c1, path, id1),
        open_transition(c1, c2, path, id2),
    ensures
        id2 == id1,
{
    assert(c1.cached_open_id(path) == Some(id1));
}

/// Law: after a close, a subsequent open of the same path yields a handle
/// that is not identity-equal to the closed one: a fresh native handle gets
/// a fresh identity.
pub proof fn lemma_reopen_after_close_is_fresh(
    c0: ExternalLibs,
    c1: ExternalLibs,
    c2: ExternalLibs,
    c3: ExternalLibs,
    path: Seq<char>,
    id1: u64,
    id2: u64,
)
    requires
        c0.wf(),
        open_transition(c0, c1, path, id1),
        close_transition(c1, c2, id1),
        open_transition(c2, c3, path, id2),
    ensures
        id2 != id1,
{
    assert(c1.cached_open_id(path) == Some(id1));
    if c0.cached_open_id(path) is Some {
        c0.lemma_cached_id_below(path);
        assert(id1 < c1.spec_next_id());
    } else {
        assert(id1 < c1.spec_next_id());
    }
    assert(c2.cached_open_id(path) is None);
    assert(id2 == c2.spec_next_id());
    assert(c2.spec_next_id() == c1.spec_next_id());
}

} // verus!
