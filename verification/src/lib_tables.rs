//! Per-cage tables of library-level interposition: symbol `(library,
//! name)` pairs mapped to a handler `(cage, function)` or to a call id.
use std::collections::HashMap;
use vstd::prelude::*;

verus! {

broadcast use vstd::std_specs::hash::group_hash_axioms;

/// A library and symbol name, as character sequences.
pub type SymbolKey = (Seq<char>, Seq<char>);

/// One entry of a cage's table.
pub type LibEntry<V> = (String, String, V);

/// The key of an entry.
pub open spec fn key_of<V>(e: LibEntry<V>) -> SymbolKey {
    (e.0@, e.1@)
}

/// No two entries share a key.
pub open spec fn keys_unique<V>(s: Seq<LibEntry<V>>) -> bool {
    forall|i: int, j: int|
        0 <= i < s.len() && 0 <= j < s.len() && i != j ==> key_of(#[trigger] s[i]) != key_of(
            #[trigger] s[j],
        )
}

/// Whether some entry has key `k`.
pub open spec fn has_key<V>(s: Seq<LibEntry<V>>, k: SymbolKey) -> bool {
    exists|i: int| 0 <= i < s.len() && key_of(#[trigger] s[i]) == k
}

/// The entries as a map from key to value.
pub open spec fn entries_view<V>(s: Seq<LibEntry<V>>) -> Map<SymbolKey, V> {
    Map::new(
        |k: SymbolKey| has_key(s, k),
        |k: SymbolKey| s[choose|i: int| 0 <= i < s.len() && key_of(#[trigger] s[i]) == k].2,
    )
}

/// A per-cage symbol table with values of type `V`.
pub struct LibTable<V> {
    table: HashMap<u64, Vec<LibEntry<V>>>,
}

/// Handler table: symbol to `(handler cage, function address)`.
pub type LibHandlerTable = LibTable<(u64, u64)>;

/// Symbol table: symbol to call id.
pub type LibSymbolTable = LibTable<u64>;

impl<V: Copy> LibTable<V> {
    /// Cage id to that cage's symbol map.
    pub closed spec fn view(&self) -> Map<u64, Map<SymbolKey, V>> {
        self.table@.map_values(|v: Vec<LibEntry<V>>| entries_view(v@))
    }

    /// Every cage's entries have distinct keys.
    pub closed spec fn wf(&self) -> bool {
        forall|c: u64| #[trigger] self.table@.contains_key(c) ==> keys_unique(self.table@[c]@)
    }

    /// An empty table.
    pub fn new() -> (r: Self)
        ensures
            r.wf(),
            r@ == Map::<u64, Map<SymbolKey, V>>::empty(),
    {
        let r = LibTable { table: HashMap::new() };
        proof {
            assert(r@ =~= Map::<u64, Map<SymbolKey, V>>::empty());
        }
        r
    }

    /// Sets the value of `(lib_name, symbol_name)` for `cage_id`.
    pub fn register(&mut self, cage_id: u64, lib_name: &str, symbol_name: &str, v: V)
        requires
            old(self).wf(),
        ensures
            final(self).wf(),
            final(self)@ == old(self)@.insert(
                cage_id,
                (if old(self)@.contains_key(cage_id) {
                    old(self)@[cage_id]
                } else {
                    Map::empty()
                }).insert((lib_name@, symbol_name@), v),
            ),
    {
        let ghost k = (lib_name@, symbol_name@);
        let mut entries = match self.table.remove(&cage_id) {
            Some(e) => e,
            None => Vec::new(),
        };
        let ghost e0 = entries@;
        proof {
            assert(entries_view(e0) =~= (if old(self)@.contains_key(cage_id) {
                old(self)@[cage_id]
            } else {
                Map::empty()
            }));
        }
        let lib = lib_name.to_owned();
        let sym = symbol_name.to_owned();
        match find_entry(&entries, &lib, &sym) {
            Some(i) => {
                entries.set(i, (lib, sym, v));
                proof {
                    assert forall|a: int, b: int|
                        0 <= a < entries@.len() && 0 <= b < entries@.len() && a != b implies key_of(
                        #[trigger] entries@[a],
                    ) != key_of(#[trigger] entries@[b]) by {
                        if a != i && b != i {
                            assert(entries@[a] == e0[a] && entries@[b] == e0[b]);
                        } else if a == i {
                            assert(key_of(e0[a]) == k);
                        } else {
                            assert(key_of(e0[b]) == k);
                        }
                    }
                    lemma_view_update(e0, i as int, entries@);
                }
            },
            None => {
                entries.push((lib, sym, v));
                proof {
                    assert forall|a: int, b: int|
                        0 <= a < entries@.len() && 0 <= b < entries@.len() && a != b implies key_of(
                        #[trigger] entries@[a],
                    ) != key_of(#[trigger] entries@[b]) by {
                        if a < e0.len() && b < e0.len() {
                            assert(entries@[a] == e0[a] && entries@[b] == e0[b]);
                        } else if a == e0.len() {
                            assert(entries@[b] == e0[b]);
                        } else {
                            assert(entries@[a] == e0[a]);
                        }
                    }
                    lemma_view_push(e0, entries@);
                }
            },
        }
        self.table.insert(cage_id, entries);
        proof {
            assert(self@ =~= old(self)@.insert(
                cage_id,
                (if old(self)@.contains_key(cage_id) {
                    old(self)@[cage_id]
                } else {
                    Map::empty()
                }).insert(k, v),
            ));
        }
    }

    /// The value of `(lib_name, symbol_name)` for `cage_id`, if any.
    pub fn get(&self, cage_id: u64, lib_name: &str, symbol_name: &str) -> (r: Option<V>)
        requires
            self.wf(),
        ensures
            r == (if self@.contains_key(cage_id) {
                self@[cage_id].get((lib_name@, symbol_name@))
            } else {
                None
            }),
    {
        match self.table.get(&cage_id) {
            None => None,
            Some(entries) => {
                let lib = lib_name.to_owned();
                let sym = symbol_name.to_owned();
                match find_entry(entries, &lib, &sym) {
                    Some(i) => {
                        proof {
                            lemma_view_at(entries@, i as int);
                        }
                        Some(entries[i].2)
                    },
                    None => None,
                }
            },
        }
    }

    /// Drops every entry of `cage_id`.
    pub fn remove_cage(&mut self, cage_id: u64)
        requires
            old(self).wf(),
        ensures
            final(self).wf(),
            final(self)@ == old(self)@.remove(cage_id),
    {
        self.table.remove(&cage_id);
        proof {
            assert(self@ =~= old(self)@.remove(cage_id));
        }
    }

    /// Gives `dst` a copy of the entries of `src`, replacing its own; does
    /// nothing when `src` has no entries.
    pub fn copy_cage(&mut self, src: u64, dst: u64)
        requires
            old(self).wf(),
        ensures
            final(self).wf(),
            old(self)@.contains_key(src) ==> final(self)@ == old(self)@.insert(dst, old(self)@[src]),
            !old(self)@.contains_key(src) ==> final(self)@ == old(self)@,
    {
        let copy = match self.table.get(&src) {
            None => {
                return ;
            },
            Some(entries) => {
                let c = copy_entries(entries);
                proof {
                    lemma_view_same_keys(entries@, c@);
                }
                c
            },
        };
        self.table.insert(dst, copy);
        proof {
            assert(self@ =~= old(self)@.insert(dst, old(self)@[src]));
        }
    }
}

/// The index of the entry with key `(lib, sym)`, if any.
fn find_entry<V>(entries: &Vec<LibEntry<V>>, lib: &String, sym: &String) -> (r: Option<usize>)
    ensures
        r matches Some(i) ==> i < entries@.len() && key_of(entries@[i as int]) == (lib@, sym@),
        r is None ==> !has_key(entries@, (lib@, sym@)),
{
    let mut i: usize = 0;
    while i < entries.len()
        invariant
            i <= entries@.len(),
            forall|j: int| 0 <= j < i ==> key_of(#[trigger] entries@[j]) != (lib@, sym@),
        decreases entries@.len() - i,
    {
        if entries[i].0 == *lib && entries[i].1 == *sym {
            return Some(i);
        }
        i = i + 1;
    }
    None
}

/// A copy of `entries`, entry by entry.
fn copy_entries<V: Copy>(entries: &Vec<LibEntry<V>>) -> (r: Vec<LibEntry<V>>)
    ensures
        r@.len() == entries@.len(),
        forall|i: int| 0 <= i < r@.len() ==> key_of(#[trigger] r@[i]) == key_of(entries@[i])
            && r@[i].2 == entries@[i].2,
{
    let mut out: Vec<LibEntry<V>> = Vec::new();
    for i in 0..entries.len()
        invariant
            out@.len() == i,
            forall|j: int| 0 <= j < i ==> key_of(#[trigger] out@[j]) == key_of(entries@[j])
                && out@[j].2 == entries@[j].2,
    {
        let lib = entries[i].0.clone();
        let sym = entries[i].1.clone();
        out.push((lib, sym, entries[i].2));
    }
    out
}

/// Entries with the same keys and values, index by index, give the same
/// map, and keep keys distinct.
proof fn lemma_view_same_keys<V>(s: Seq<LibEntry<V>>, t: Seq<LibEntry<V>>)
    requires
        keys_unique(s),
        t.len() == s.len(),
        forall|i: int| 0 <= i < t.len() ==> key_of(#[trigger] t[i]) == key_of(s[i]) && t[i].2
            == s[i].2,
    ensures
        keys_unique(t),
        entries_view(t) == entries_view(s),
{
    assert forall|i: int, j: int|
        0 <= i < t.len() && 0 <= j < t.len() && i != j implies key_of(#[trigger] t[i]) != key_of(
        #[trigger] t[j],
    ) by {
        assert(key_of(t[i]) == key_of(s[i]) && key_of(t[j]) == key_of(s[j]));
        assert(key_of(s[i]) != key_of(s[j]));
    }
    assert forall|x: SymbolKey| has_key(t, x) <==> has_key(s, x) by {
        if has_key(t, x) {
            let j = choose|j: int| 0 <= j < t.len() && key_of(#[trigger] t[j]) == x;
            assert(key_of(s[j]) == x);
        }
        if has_key(s, x) {
            let j = choose|j: int| 0 <= j < s.len() && key_of(#[trigger] s[j]) == x;
            assert(key_of(t[j]) == x);
        }
    }
    assert forall|x: SymbolKey| #[trigger] entries_view(t).contains_key(x) implies entries_view(
        t,
    )[x] == entries_view(s)[x] by {
        let j = choose|j: int| 0 <= j < t.len() && key_of(#[trigger] t[j]) == x;
        lemma_view_at(t, j);
        lemma_view_at(s, j);
    }
    assert(entries_view(t) =~= entries_view(s));
}

/// With distinct keys, the value the map gives for the key of entry `i`
/// is that entry's value.
proof fn lemma_view_at<V>(s: Seq<LibEntry<V>>, i: int)
    requires
        keys_unique(s),
        0 <= i < s.len(),
    ensures
        entries_view(s).contains_key(key_of(s[i])),
        entries_view(s)[key_of(s[i])] == s[i].2,
{
    let k = key_of(s[i]);
    assert(has_key(s, k));
    let j = choose|j: int| 0 <= j < s.len() && key_of(#[trigger] s[j]) == k;
    assert(j == i);
}

/// Overwriting entry `i` (same key) updates the map at that key.
proof fn lemma_view_update<V>(s: Seq<LibEntry<V>>, i: int, t: Seq<LibEntry<V>>)
    requires
        keys_unique(s),
        keys_unique(t),
        0 <= i < s.len(),
        t.len() == s.len(),
        forall|j: int| 0 <= j < s.len() && j != i ==> t[j] == s[j],
        key_of(t[i]) == key_of(s[i]),
    ensures
        entries_view(t) == entries_view(s).insert(key_of(s[i]), t[i].2),
{
    let k = key_of(s[i]);
    assert forall|x: SymbolKey| has_key(t, x) <==> has_key(s, x) by {
        if has_key(t, x) {
            let j = choose|j: int| 0 <= j < t.len() && key_of(#[trigger] t[j]) == x;
            if j != i {
                assert(key_of(s[j]) == x);
            } else {
                assert(key_of(s[i]) == x);
            }
        }
        if has_key(s, x) {
            let j = choose|j: int| 0 <= j < s.len() && key_of(#[trigger] s[j]) == x;
            if j != i {
                assert(key_of(t[j]) == x);
            } else {
                assert(key_of(t[i]) == x);
            }
        }
    }
    assert forall|x: SymbolKey| #[trigger] entries_view(t).contains_key(x) implies entries_view(
        t,
    )[x] == entries_view(s).insert(k, t[i].2)[x] by {
        let j = choose|j: int| 0 <= j < t.len() && key_of(#[trigger] t[j]) == x;
        lemma_view_at(t, j);
        if j != i {
            lemma_view_at(s, j);
        }
    }
    assert(entries_view(t) =~= entries_view(s).insert(k, t[i].2));
}

/// Appending an entry with a new key adds that key to the map.
proof fn lemma_view_push<V>(s: Seq<LibEntry<V>>, t: Seq<LibEntry<V>>)
    requires
        keys_unique(s),
        keys_unique(t),
        t.len() == s.len() + 1,
        forall|j: int| 0 <= j < s.len() ==> t[j] == s[j],
    ensures
        entries_view(t) == entries_view(s).insert(key_of(t[s.len() as int]), t[s.len() as int].2),
{
    let n = s.len() as int;
    let k = key_of(t[n]);
    assert forall|x: SymbolKey| has_key(t, x) <==> (has_key(s, x) || x == k) by {
        if has_key(t, x) {
            let j = choose|j: int| 0 <= j < t.len() && key_of(#[trigger] t[j]) == x;
            if j < n {
                assert(key_of(s[j]) == x);
            }
        }
        if has_key(s, x) {
            let j = choose|j: int| 0 <= j < s.len() && key_of(#[trigger] s[j]) == x;
            assert(key_of(t[j]) == x);
        }
        if x == k {
            assert(key_of(t[n]) == x);
        }
    }
    assert forall|x: SymbolKey| #[trigger] entries_view(t).contains_key(x) implies entries_view(
        t,
    )[x] == entries_view(s).insert(k, t[n].2)[x] by {
        let j = choose|j: int| 0 <= j < t.len() && key_of(#[trigger] t[j]) == x;
        lemma_view_at(t, j);
        if j < n {
            lemma_view_at(s, j);
        }
    }
    assert(entries_view(t) =~= entries_view(s).insert(k, t[n].2));
}

/// Registers `(lib_name, symbol_name) -> (handler_cage_id, fn_ptr)` for `cage_id`.
pub fn register_lib_handler_entry(
    table: &mut LibHandlerTable,
    cage_id: u64,
    lib_name: &str,
    symbol_name: &str,
    handler_cage_id: u64,
    fn_ptr: u64,
)
    requires
        old(table).wf(),
    ensures
        final(table).wf(),
        final(table)@ == old(table)@.insert(
            cage_id,
            (if old(table)@.contains_key(cage_id) {
                old(table)@[cage_id]
            } else {
                Map::empty()
            }).insert((lib_name@, symbol_name@), (handler_cage_id, fn_ptr)),
        ),
{
    table.register(cage_id, lib_name, symbol_name, (handler_cage_id, fn_ptr));
}

/// The handler registered for `(cage_id, lib_name, symbol_name)`, if any.
pub fn get_lib_handler(table: &LibHandlerTable, cage_id: u64, lib_name: &str, symbol_name: &str) -> (r:
    Option<(u64, u64)>)
    requires
        table.wf(),
    ensures
        r == (if table@.contains_key(cage_id) {
            table@[cage_id].get((lib_name@, symbol_name@))
        } else {
            None
        }),
{
    table.get(cage_id, lib_name, symbol_name)
}

/// Drops every handler entry of `cage_id`.
pub fn rm_cage_from_lib_handler_table(table: &mut LibHandlerTable, cage_id: u64)
    requires
        old(table).wf(),
    ensures
        final(table).wf(),
        final(table)@ == old(table)@.remove(cage_id),
{
    table.remove_cage(cage_id);
}

/// Gives `dst_cage_id` the handler entries of `src_cage_id` (on fork).
pub fn copy_lib_handler_table_to_cage(table: &mut LibHandlerTable, src_cage_id: u64, dst_cage_id: u64)
    requires
        old(table).wf(),
    ensures
        final(table).wf(),
        old(table)@.contains_key(src_cage_id) ==> final(table)@ == old(table)@.insert(
            dst_cage_id,
            old(table)@[src_cage_id],
        ),
        !old(table)@.contains_key(src_cage_id) ==> final(table)@ == old(table)@,
{
    table.copy_cage(src_cage_id, dst_cage_id);
}

/// Registers `(lib_name, symbol_name) -> call_id` for `cage_id`.
pub fn register_lib_symbol(
    table: &mut LibSymbolTable,
    cage_id: u64,
    lib_name: &str,
    symbol_name: &str,
    call_id: u64,
)
    requires
        old(table).wf(),
    ensures
        final(table).wf(),
        final(table)@ == old(table)@.insert(
            cage_id,
            (if old(table)@.contains_key(cage_id) {
                old(table)@[cage_id]
            } else {
                Map::empty()
            }).insert((lib_name@, symbol_name@), call_id),
        ),
{
    table.register(cage_id, lib_name, symbol_name, call_id);
}

/// The call id registered for `(cage_id, lib_name, symbol_name)`, if any.
pub fn get_lib_call_id(table: &LibSymbolTable, cage_id: u64, lib_name: &str, symbol_name: &str) -> (r:
    Option<u64>)
    requires
        table.wf(),
    ensures
        r == (if table@.contains_key(cage_id) {
            table@[cage_id].get((lib_name@, symbol_name@))
        } else {
            None
        }),
{
    table.get(cage_id, lib_name, symbol_name)
}

/// Drops every symbol entry of `cage_id`.
pub fn rm_cage_from_lib_symbol_table(table: &mut LibSymbolTable, cage_id: u64)
    requires
        old(table).wf(),
    ensures
        final(table).wf(),
        final(table)@ == old(table)@.remove(cage_id),
{
    table.remove_cage(cage_id);
}

/// Gives `dst_cage_id` the symbol entries of `src_cage_id` (on fork).
pub fn copy_lib_symbol_table_to_cage(table: &mut LibSymbolTable, src_cage_id: u64, dst_cage_id: u64)
    requires
        old(table).wf(),
    ensures
        final(table).wf(),
        old(table)@.contains_key(src_cage_id) ==> final(table)@ == old(table)@.insert(
            dst_cage_id,
            old(table)@[src_cage_id],
        ),
        !old(table)@.contains_key(src_cage_id) ==> final(table)@ == old(table)@,
{
    table.copy_cage(src_cage_id, dst_cage_id);
}

} // verus!
