use vstd::prelude::*;

use crate::error::FfiError;
use crate::library::ExternalLibs;

verus! {

/// One resolved symbol: which library it came from (by identity), its name,
/// and the native function address the loader returned.
#[derive(Debug)]
pub struct ResolvedSymbol {
    pub library_id: u64,
    pub name: String,
    pub pointer: u64,
}

/// The memo's content: the address recorded for a (library identity, symbol
/// name) pair, newest record first.
pub open spec fn lookup(entries: Seq<ResolvedSymbol>, library_id: u64, name: Seq<char>) -> Option<
    u64,
>
    decreases entries.len(),
{
    if entries.len() == 0 {
        None
    } else if entries[0].library_id == library_id && entries[0].name@ == name {
        Some(entries[0].pointer)
    } else {
        lookup(entries.skip(1), library_id, name)
    }
}

/// What the embedding program must do next to resolve a symbol: hand back
/// the memoized address, or perform the one native lookup.
#[derive(Debug, Clone, Copy, PartialEq, Eq, Structural)]
pub enum ResolveStep {
    Cached(u64),
    NeedsLookup,
}

/// The process-wide symbol memo: the first resolution of a (library, name)
/// pair performs the native lookup, later requests are answered from the
/// memo until the owning library is closed. The embedding program is
/// expected to guard the one memo value behind its lock of choice.
pub struct SymbolResolver {
    symbols: Vec<ResolvedSymbol>,
}

impl SymbolResolver {
    pub closed spec fn entries(&self) -> Seq<ResolvedSymbol> {
        self.symbols@
    }

    /// The memoized address for this library identity and symbol name.
    pub open spec fn cached_pointer(&self, library_id: u64, name: Seq<char>) -> Option<u64> {
        lookup(self.entries(), library_id, name)
    }

    pub fn new() -> (r: SymbolResolver)
        ensures
            r.entries() == Seq::<ResolvedSymbol>::empty(),
    {
        SymbolResolver { symbols: Vec::new() }
    }

    /// The memoized address, if this pair was resolved before.
    pub fn cached(&self, library_id: u64, name: &String) -> (r: Option<u64>)
        ensures
            r == self.cached_pointer(library_id, name@),
    {
        let n = self.symbols.len();
        let mut i: usize = 0;
        proof {
            assert(self.entries().skip(0) =~= self.entries());
        }
        while i < n
            invariant
                i <= n,
                n == self.entries().len(),
                self.cached_pointer(library_id, name@) == lookup(
                    self.entries().skip(i as int),
                    library_id,
                    name@,
                ),
            decreases n - i,
        {
            proof {
                assert(self.entries().skip(i as int)[0] == self.entries()[i as int]);
                assert(self.entries().skip(i as int).skip(1) =~= self.entries().skip(i + 1));
            }
            let e = &self.symbols[i];
            if e.library_id == library_id && e.name == *name {
                return Some(e.pointer);
            }
            i = i + 1;
        }
        proof {
            assert(self.entries().skip(n as int) =~= Seq::<ResolvedSymbol>::empty());
        }
        None
    }

    /// Memoize an address for this pair; every other pair keeps its answer.
    pub fn record(&mut self, library_id: u64, name: &String, pointer: u64)
        ensures
            final(self).cached_pointer(library_id, name@) == Some(pointer),
            forall|l: u64, q: Seq<char>|
                !(l == library_id && q == name@) ==> #[trigger] final(self).cached_pointer(l, q)
                    == old(self).cached_pointer(l, q),
    {
        let entry = ResolvedSymbol { library_id, name: name.clone(), pointer };
        self.symbols.insert(0, entry);
        proof {
            assert(final(self).entries().skip(1) =~= old(self).entries());
        }
    }

    /// Drop every memo entry of this library: its pointers are invalid once
    /// it is closed. Other libraries' entries keep their answers.
    pub fn invalidate_library(&mut self, library_id: u64)
        ensures
            forall|q: Seq<char>| #[trigger]
                final(self).cached_pointer(library_id, q) is None,
            forall|l: u64, q: Seq<char>|
                l != library_id ==> #[trigger] final(self).cached_pointer(l, q) == old(
                    self,
                ).cached_pointer(l, q),
    {
        let mut kept: Vec<ResolvedSymbol> = Vec::new();
        let n = self.symbols.len();
        let mut i: usize = n;
        proof {
            assert(self.entries().skip(n as int) =~= Seq::<ResolvedSymbol>::empty());
        }
        while i > 0
            invariant
                i <= n,
                n == self.entries().len(),
                forall|q: Seq<char>| #[trigger]
                    lookup(kept@, library_id, q) is None,
                forall|l: u64, q: Seq<char>|
                    l != library_id ==> #[trigger] lookup(kept@, l, q) == lookup(
                        self.entries().skip(i as int),
                        l,
                        q,
                    ),
            decreases i,
        {
            proof {
                assert(self.entries().skip(i - 1)[0] == self.entries()[i - 1]);
                assert(self.entries().skip(i - 1).skip(1) =~= self.entries().skip(i as int));
            }
            let ghost head = self.entries()[i - 1];
            let e = &self.symbols[i - 1];
            if e.library_id != library_id {
                let ghost pre_kept = kept@;
                let copy = ResolvedSymbol {
                    library_id: e.library_id,
                    name: e.name.clone(),
                    pointer: e.pointer,
                };
                kept.insert(0, copy);
                proof {
                    assert(kept@.skip(1) =~= pre_kept);
                    assert(kept@[0].library_id == head.library_id);
                    assert(kept@[0].name@ == head.name@);
                    assert(kept@[0].pointer == head.pointer);
                    assert forall|q: Seq<char>| #[trigger]
                        lookup(kept@, library_id, q) is None by {
                        assert(lookup(kept@, library_id, q) == lookup(pre_kept, library_id, q));
                        assert(lookup(pre_kept, library_id, q) is None);
                    }
                    assert forall|l: u64, q: Seq<char>| l != library_id implies #[trigger] lookup(
                        kept@,
                        l,
                        q,
                    ) == lookup(self.entries().skip(i - 1), l, q) by {
                        if l == head.library_id && q == head.name@ {
                            assert(lookup(kept@, l, q) == Some(head.pointer));
                            assert(lookup(self.entries().skip(i - 1), l, q) == Some(head.pointer));
                        } else {
                            assert(lookup(kept@, l, q) == lookup(pre_kept, l, q));
                            assert(lookup(self.entries().skip(i - 1), l, q) == lookup(
                                self.entries().skip(i as int),
                                l,
                                q,
                            ));
                            assert(lookup(pre_kept, l, q) == lookup(
                                self.entries().skip(i as int),
                                l,
                                q,
                            ));
                        }
                    }
                }
            } else {
                proof {
                    assert forall|l: u64, q: Seq<char>| l != library_id implies #[trigger] lookup(
                        kept@,
                        l,
                        q,
                    ) == lookup(self.entries().skip(i - 1), l, q) by {
                        assert(lookup(self.entries().skip(i - 1), l, q) == lookup(
                            self.entries().skip(i as int),
                            l,
                            q,
                        ));
                    }
                }
            }
            i = i - 1;
        }
        proof {
            assert(self.entries().skip(0) =~= self.entries());
        }
        self.symbols = kept;
    }
}

/// Begin resolving `name` in the library with this identity: refused with
/// `LibraryClosed` when no open handle carries the identity; answered from
/// the memo when the pair was resolved before; otherwise the embedding
/// program is told to perform the one native lookup (and then record its
/// outcome with [`record_lookup`]).
pub fn resolve_begin(
    libs: &ExternalLibs,
    syms: &SymbolResolver,
    library_id: u64,
    name: &String,
) -> (r: Result<ResolveStep, FfiError>)
    ensures
        !libs.spec_is_open_id(library_id) ==> r == Err::<ResolveStep, FfiError>(
            FfiError::LibraryClosed,
        ),
        libs.spec_is_open_id(library_id) && syms.cached_pointer(library_id, name@) is Some ==> r
            == Ok::<ResolveStep, FfiError>(
            ResolveStep::Cached(syms.cached_pointer(library_id, name@).unwrap()),
        ),
        libs.spec_is_open_id(library_id) && syms.cached_pointer(library_id, name@) is None ==> r
            == Ok::<ResolveStep, FfiError>(ResolveStep::NeedsLookup),
{
    if !libs.is_open(library_id) {
        return Err(FfiError::LibraryClosed);
    }
    match syms.cached(library_id, name) {
        Some(p) => Ok(ResolveStep::Cached(p)),
        None => Ok(ResolveStep::NeedsLookup),
    }
}

/// Record the outcome of the native lookup the embedding program performed:
/// an address is memoized and returned, an absent symbol is a
/// `SymbolNotFound` naming the symbol, and nothing is memoized for it.
pub fn record_lookup(
    syms: &mut SymbolResolver,
    library_id: u64,
    name: &String,
    outcome: Option<u64>,
) -> (r: Result<u64, FfiError>)
    ensures
        outcome matches Some(p) ==> r == Ok::<u64, FfiError>(p) && final(syms).cached_pointer(
            library_id,
            name@,
        ) == Some(p) && (forall|l: u64, q: Seq<char>|
            !(l == library_id && q == name@) ==> #[trigger] final(syms).cached_pointer(l, q) == old(
                syms,
            ).cached_pointer(l, q)),
        outcome is None ==> (r matches Err(e) && (e matches FfiError::SymbolNotFound { name: m }
            && m@ == name@)) && *final(syms) == *old(syms),
{
    match outcome {
        Some(p) => {
            syms.record(library_id, name, p);
            Ok(p)
        },
        None => Err(FfiError::SymbolNotFound { name: name.clone() }),
    }
}

} // verus!
