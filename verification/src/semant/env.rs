//! Scopes: what each name stands for while a function body is checked.
use vstd::prelude::*;

use crate::ast::{erase, tyv, Tag, Ty, TyV, Type};
use crate::ir::frame::Access;
use crate::ir::symbols::{Label, Temp};
use crate::ir::view::ExprV;
use vstd::string::StrSliceExecFns;

verus! {

/// What a name is bound to.
#[derive(Debug)]
pub enum Binding {
    /// A variable, held in a register
    Var(Access),
    /// A function, called through its label
    Fun(Label),
}

/// A name's type and binding.
#[derive(Debug)]
pub struct Entry {
    pub ty: Tag<Type>,
    pub binding: Binding,
}

/// What the checker knows of an entry: the shape of its type and whether it is a function.
pub struct EntryView {
    pub ty: Ty,
    pub is_fun: bool,
}

pub open spec fn entry_view(e: Entry) -> EntryView {
    EntryView { ty: erase(*e.ty.item), is_fun: e.binding is Fun }
}

/// The names of a scope, as a map.
pub struct EnvView {
    pub locals: Map<Seq<char>, EntryView>,
    pub globals: Map<Seq<char>, EntryView>,
}

/// What a name stands for: the local binding if there is one, else the global one.
pub open spec fn lookup_v(env: EnvView, k: Seq<char>) -> Option<EntryView> {
    if env.locals.contains_key(k) {
        Some(env.locals[k])
    } else if env.globals.contains_key(k) {
        Some(env.globals[k])
    } else {
        None
    }
}

/// The names bound by an association list of distinct names.
pub open spec fn assoc_view(s: Seq<(String, Entry)>) -> Map<Seq<char>, EntryView> {
    Map::new(
        |k: Seq<char>| exists|i: int| 0 <= i < s.len() && #[trigger] s[i].0@ == k,
        |k: Seq<char>| entry_view(s[choose|i: int| 0 <= i < s.len() && #[trigger] s[i].0@ == k].1),
    )
}

/// The values bound to the names of an association list of distinct names, each taken
/// through `f`.
pub open spec fn keyed<V>(s: Seq<(String, Entry)>, f: spec_fn(Entry) -> V) -> Map<Seq<char>, V> {
    Map::new(
        |k: Seq<char>| exists|i: int| 0 <= i < s.len() && #[trigger] s[i].0@ == k,
        |k: Seq<char>| f(s[choose|i: int| 0 <= i < s.len() && #[trigger] s[i].0@ == k].1),
    )
}

/// An entry in full: its type with every span in it, and its binding.
pub open spec fn entry_full(e: Entry) -> (TyV, Binding) {
    (tyv(e.ty), e.binding)
}

/// The entry found under a position's name in a list without repeated names.
proof fn lemma_keyed_at<V>(s: Seq<(String, Entry)>, i: int, f: spec_fn(Entry) -> V)
    requires
        distinct_names(s),
        0 <= i < s.len(),
    ensures
        keyed(s, f).contains_key(s[i].0@),
        keyed(s, f)[s[i].0@] == f(s[i].1),
{
    let k = s[i].0@;
    let j = choose|j: int| 0 <= j < s.len() && #[trigger] s[j].0@ == k;
    assert(s[i].0@ == k);
    assert(j == i);
}

/// A name bound nowhere in a list is no key of its map.
proof fn lemma_keyed_absent<V>(s: Seq<(String, Entry)>, k: Seq<char>, f: spec_fn(Entry) -> V)
    requires
        !assoc_view(s).contains_key(k),
    ensures
        !keyed(s, f).contains_key(k),
{
    if keyed(s, f).contains_key(k) {
        let i = choose|i: int| 0 <= i < s.len() && #[trigger] s[i].0@ == k;
        assert(assoc_view(s).contains_key(k));
    }
}

/// The register of a variable binding (a function has none; 0 stands there).
pub open spec fn temp_of(e: Entry) -> usize {
    match e.binding {
        Binding::Var(Access::InReg(t)) => t.0,
        Binding::Fun(_) => 0,
    }
}

/// The registers of the variables of an association list.
pub open spec fn temps_view(s: Seq<(String, Entry)>) -> Map<Seq<char>, usize> {
    keyed(s, |e: Entry| temp_of(e))
}

/// What reading a binding gives: the register of a variable, the address of a function.
pub open spec fn binding_v(e: Entry) -> ExprV {
    match e.binding {
        Binding::Var(Access::InReg(t)) => ExprV::Temp(t),
        Binding::Fun(l) => ExprV::Name(l.0@),
    }
}

/// What reading a name gives in a scope whose local variables live in `temps`: the register
/// of a local variable, else the address of the function of that name.
pub open spec fn place_v(temps: Map<Seq<char>, usize>, k: Seq<char>) -> ExprV {
    if temps.contains_key(k) {
        ExprV::Temp(Temp(temps[k]))
    } else {
        ExprV::Name(k)
    }
}

/// Every binding of a list is a function (`fun`), or every one a variable.
pub open spec fn kinds_are(s: Seq<(String, Entry)>, fun: bool) -> bool {
    forall|i: int| 0 <= i < s.len() ==> ((#[trigger] s[i]).1.binding is Fun) == fun
}

/// A list with `key` bound to `entry` and every other name as in `o` has the values of `o`
/// with that one binding added.
proof fn lemma_keyed_insert<V>(o: Seq<(String, Entry)>, s: Seq<(String, Entry)>, key: Seq<char>, entry: Entry, f: spec_fn(Entry) -> V)
    requires
        distinct_names(o),
        distinct_names(s),
        exists|j: int| 0 <= j < s.len() && s[j].0@ == key && #[trigger] s[j].1 == entry,
        forall|j: int| 0 <= j < s.len() && s[j].0@ != key ==> exists|i: int| 0 <= i < o.len() && #[trigger] o[i] == s[j],
        forall|i: int| 0 <= i < o.len() && o[i].0@ != key ==> exists|j: int| 0 <= j < s.len() && #[trigger] s[j] == o[i],
    ensures
        keyed(s, f) == keyed(o, f).insert(key, f(entry)),
{
    let m = keyed(s, f);
    let want = keyed(o, f).insert(key, f(entry));
    let jk = choose|j: int| 0 <= j < s.len() && s[j].0@ == key && #[trigger] s[j].1 == entry;
    assert forall|k: Seq<char>| #[trigger] m.contains_key(k) <==> want.contains_key(k) by {
        if k == key {
            assert(s[jk].0@ == k);
        } else {
            if exists|i: int| 0 <= i < o.len() && #[trigger] o[i].0@ == k {
                let i = choose|i: int| 0 <= i < o.len() && #[trigger] o[i].0@ == k;
                let j = choose|j: int| 0 <= j < s.len() && #[trigger] s[j] == o[i];
                assert(s[j].0@ == k);
            }
            if exists|j: int| 0 <= j < s.len() && #[trigger] s[j].0@ == k {
                let j = choose|j: int| 0 <= j < s.len() && #[trigger] s[j].0@ == k;
                let i = choose|i: int| 0 <= i < o.len() && #[trigger] o[i] == s[j];
                assert(o[i].0@ == k);
            }
        }
    }
    assert forall|k: Seq<char>| m.contains_key(k) implies #[trigger] m[k] == want[k] by {
        let j = choose|j: int| 0 <= j < s.len() && #[trigger] s[j].0@ == k;
        if k == key {
            assert(s[jk].0@ == key);
            assert(j == jk);
        } else {
            let i = choose|i: int| 0 <= i < o.len() && #[trigger] o[i] == s[j];
            assert(o[i].0@ == k);
            let c = choose|c: int| 0 <= c < o.len() && #[trigger] o[c].0@ == k;
            assert(c == i);
        }
    }
    assert(m =~= want);
}

/// Two lists with the same names in the same order and the same values through `f` have the
/// same values.
proof fn lemma_keyed_same<V>(a: Seq<(String, Entry)>, b: Seq<(String, Entry)>, f: spec_fn(Entry) -> V)
    requires
        a.len() == b.len(),
        distinct_names(b),
        forall|j: int| 0 <= j < a.len() ==> (#[trigger] a[j]).0@ == b[j].0@ && f(a[j].1) == f(b[j].1),
    ensures
        keyed(a, f) == keyed(b, f),
{
    assert forall|k: Seq<char>| #[trigger] keyed(a, f).contains_key(k) <==> keyed(b, f).contains_key(k) by {
        if exists|i: int| 0 <= i < a.len() && #[trigger] a[i].0@ == k {
            let i = choose|i: int| 0 <= i < a.len() && #[trigger] a[i].0@ == k;
            assert(b[i].0@ == k);
        }
        if exists|i: int| 0 <= i < b.len() && #[trigger] b[i].0@ == k {
            let i = choose|i: int| 0 <= i < b.len() && #[trigger] b[i].0@ == k;
            assert(a[i].0@ == k);
        }
    }
    assert forall|k: Seq<char>| keyed(a, f).contains_key(k) implies #[trigger] keyed(a, f)[k] == keyed(b, f)[k] by {
        let i = choose|i: int| 0 <= i < a.len() && #[trigger] a[i].0@ == k;
        let j = choose|i: int| 0 <= i < b.len() && #[trigger] b[i].0@ == k;
        assert(b[i].0@ == k);
        assert(i == j);
    }
    assert(keyed(a, f) =~= keyed(b, f));
}

/// A function bound to a name is called through the label of that name.
pub open spec fn label_ok(name: Seq<char>, e: Entry) -> bool {
    e.binding matches Binding::Fun(l) ==> l.0@ == name
}

/// Every function binding of a list has the label of its name.
pub open spec fn labels_match(s: Seq<(String, Entry)>) -> bool {
    forall|i: int| 0 <= i < s.len() ==> label_ok((#[trigger] s[i]).0@, s[i].1)
}

/// No name occurs twice.
pub open spec fn distinct_names(s: Seq<(String, Entry)>) -> bool {
    forall|i: int, j: int| 0 <= i < s.len() && 0 <= j < s.len() && i != j ==> s[i].0@ != s[j].0@
}

/// Whether two strings hold the same characters.
pub(crate) fn str_eq(a: &str, b: &str) -> (r: bool)
    ensures
        r == (a@ == b@),
{
    let n = a.unicode_len();
    if n != b.unicode_len() {
        return false;
    }
    let mut i: usize = 0;
    while i < n
        invariant
            n == a@.len(),
            n == b@.len(),
            i <= n,
            forall|j: int| 0 <= j < i ==> a@[j] == b@[j],
        decreases n - i,
    {
        if a.get_char(i) != b.get_char(i) {
            return false;
        }
        i = i + 1;
    }
    assert(a@ =~= b@);
    true
}

/// A copy of an entry.
pub fn copy_entry(e: &Entry) -> (r: Entry)
    ensures
        entry_view(r) == entry_view(*e),
        r.binding == e.binding,
        entry_full(r) == entry_full(*e),
{
    let b = match &e.binding {
        Binding::Var(a) => Binding::Var(*a),
        Binding::Fun(l) => Binding::Fun(l.clone()),
    };
    Entry { ty: e.ty.copy(), binding: b }
}

fn copy_list(s: &Vec<(String, Entry)>) -> (r: Vec<(String, Entry)>)
    requires
        distinct_names(s@),
    ensures
        distinct_names(r@),
        assoc_view(r@) == assoc_view(s@),
        temps_view(r@) == temps_view(s@),
        keyed(r@, |e: Entry| entry_full(e)) == keyed(s@, |e: Entry| entry_full(e)),
        r@.len() == s@.len(),
        labels_match(s@) ==> labels_match(r@),
        kinds_are(s@, true) ==> kinds_are(r@, true),
        kinds_are(s@, false) ==> kinds_are(r@, false),
{
    let mut v: Vec<(String, Entry)> = Vec::new();
    let mut i: usize = 0;
    while i < s.len()
        invariant
            i <= s@.len(),
            v@.len() == i,
            distinct_names(s@),
            forall|j: int| 0 <= j < i ==> (#[trigger] v@[j]).0@ == s@[j].0@ && entry_view(v@[j].1) == entry_view(s@[j].1)
                && v@[j].1.binding == s@[j].1.binding && entry_full(v@[j].1) == entry_full(s@[j].1),
        decreases s@.len() - i,
    {
        v.push((s[i].0.clone(), copy_entry(&s[i].1)));
        i = i + 1;
    }
    proof {
        assert(distinct_names(v@));
        lemma_same_view(v@, s@);
        lemma_keyed_same(v@, s@, |e: Entry| temp_of(e));
        lemma_keyed_same(v@, s@, |e: Entry| entry_full(e));
    }
    v
}

proof fn lemma_same_view(a: Seq<(String, Entry)>, b: Seq<(String, Entry)>)
    requires
        a.len() == b.len(),
        distinct_names(b),
        forall|j: int| 0 <= j < a.len() ==> (#[trigger] a[j]).0@ == b[j].0@ && entry_view(a[j].1) == entry_view(b[j].1),
    ensures
        assoc_view(a) == assoc_view(b),
{
    assert forall|k: Seq<char>| #[trigger] assoc_view(a).contains_key(k) <==> assoc_view(b).contains_key(k) by {
        if exists|i: int| 0 <= i < a.len() && #[trigger] a[i].0@ == k {
            let i = choose|i: int| 0 <= i < a.len() && #[trigger] a[i].0@ == k;
            assert(b[i].0@ == k);
        }
        if exists|i: int| 0 <= i < b.len() && #[trigger] b[i].0@ == k {
            let i = choose|i: int| 0 <= i < b.len() && #[trigger] b[i].0@ == k;
            assert(a[i].0@ == k);
        }
    }
    assert forall|k: Seq<char>| assoc_view(a).contains_key(k) implies #[trigger] assoc_view(a)[k] == assoc_view(b)[k] by {
        let i = choose|i: int| 0 <= i < a.len() && #[trigger] a[i].0@ == k;
        let j = choose|i: int| 0 <= i < b.len() && #[trigger] b[i].0@ == k;
        assert(b[i].0@ == k);
        assert(i == j);
    }
    assert(assoc_view(a) =~= assoc_view(b));
}

/// The position of a name in a list, if it is there.
fn find(s: &Vec<(String, Entry)>, name: &str) -> (r: Option<usize>)
    requires
        distinct_names(s@),
    ensures
        r matches Some(i) ==> i < s@.len() && s@[i as int].0@ == name@,
        r is None <==> !assoc_view(s@).contains_key(name@),
        r matches Some(i) ==> assoc_view(s@)[name@] == entry_view(s@[i as int].1),
        r is None <==> !temps_view(s@).contains_key(name@),
        r matches Some(i) ==> temps_view(s@)[name@] == temp_of(s@[i as int].1),
{
    let mut i: usize = 0;
    while i < s.len()
        invariant
            i <= s@.len(),
            distinct_names(s@),
            forall|j: int| 0 <= j < i ==> (#[trigger] s@[j]).0@ != name@,
        decreases s@.len() - i,
    {
        if str_eq(s[i].0.as_str(), name) {
            proof {
                assert(s@[i as int].0@ == name@);
                assert(assoc_view(s@).contains_key(name@));
                let c = choose|c: int| 0 <= c < s@.len() && #[trigger] s@[c].0@ == name@;
                assert(c == i);
            }
            return Some(i);
        }
        i = i + 1;
    }
    proof {
        if assoc_view(s@).contains_key(name@) {
            let c = choose|c: int| 0 <= c < s@.len() && #[trigger] s@[c].0@ == name@;
            assert(s@[c].0@ == name@);
        }
    }
    None
}

/// Binds `name` in a list, replacing an earlier binding of it.
fn bind(s: &mut Vec<(String, Entry)>, name: String, entry: Entry)
    requires
        distinct_names(old(s)@),
    ensures
        distinct_names(final(s)@),
        assoc_view(final(s)@) == assoc_view(old(s)@).insert(name@, entry_view(entry)),
        temps_view(final(s)@) == temps_view(old(s)@).insert(name@, temp_of(entry)),
        keyed(final(s)@, |e: Entry| e) == keyed(old(s)@, |e: Entry| e).insert(name@, entry),
        keyed(final(s)@, |e: Entry| entry_full(e)) == keyed(old(s)@, |e: Entry| entry_full(e)).insert(name@, entry_full(entry)),
        labels_match(old(s)@) && label_ok(name@, entry) ==> labels_match(final(s)@),
        kinds_are(old(s)@, true) && entry.binding is Fun ==> kinds_are(final(s)@, true),
        kinds_are(old(s)@, false) && !(entry.binding is Fun) ==> kinds_are(final(s)@, false),
{
    let ghost ev = entry_view(entry);
    let ghost key = name@;
    let ghost o = s@;
    let ghost ge = entry;
    match find(s, name.as_str()) {
        Some(i) => {
            s.set(i, (name, entry));
            proof {
                assert forall|a: int, b: int| 0 <= a < s@.len() && 0 <= b < s@.len() && a != b implies s@[a].0@ != s@[b].0@ by {
                    if a == i {
                        assert(o[a].0@ == key);
                    } else if b == i {
                        assert(o[b].0@ == key);
                    }
                }
                let m = assoc_view(s@);
                let want = assoc_view(o).insert(key, ev);
                assert forall|k: Seq<char>| #[trigger] m.contains_key(k) <==> want.contains_key(k) by {
                    if exists|j: int| 0 <= j < o.len() && #[trigger] o[j].0@ == k {
                        let j = choose|j: int| 0 <= j < o.len() && #[trigger] o[j].0@ == k;
                        if j == i {
                            assert(s@[j].0@ == k);
                        } else {
                            assert(s@[j].0@ == k);
                        }
                    }
                    if exists|j: int| 0 <= j < s@.len() && #[trigger] s@[j].0@ == k {
                        let j = choose|j: int| 0 <= j < s@.len() && #[trigger] s@[j].0@ == k;
                        if j != i {
                            assert(o[j].0@ == k);
                        }
                    }
                }
                assert forall|k: Seq<char>| m.contains_key(k) implies #[trigger] m[k] == want[k] by {
                    let j = choose|j: int| 0 <= j < s@.len() && #[trigger] s@[j].0@ == k;
                    if j == i {
                        assert(k == key);
                    } else {
                        assert(o[j].0@ == k);
                        assert(k != key);
                        let c = choose|c: int| 0 <= c < o.len() && #[trigger] o[c].0@ == k;
                        assert(c == j);
                    }
                }
                assert(m =~= want);
                assert(s@[i as int].1 == ge);
                assert forall|j: int| 0 <= j < s@.len() && s@[j].0@ != key implies exists|ii: int| 0 <= ii < o.len() && #[trigger] o[ii] == s@[j] by {
                    assert(j != i);
                    assert(o[j] == s@[j]);
                }
                assert forall|ii: int| 0 <= ii < o.len() && o[ii].0@ != key implies exists|j: int| 0 <= j < s@.len() && #[trigger] s@[j] == o[ii] by {
                    assert(ii != i);
                    assert(o[ii] == s@[ii]);
                }
                lemma_keyed_insert(o, s@, key, ge, |e: Entry| temp_of(e));
                lemma_keyed_insert(o, s@, key, ge, |e: Entry| e);
                lemma_keyed_insert(o, s@, key, ge, |e: Entry| entry_full(e));
            }
        },
        None => {
            s.push((name, entry));
            proof {
                let n = o.len() as int;
                assert forall|a: int, b: int| 0 <= a < s@.len() && 0 <= b < s@.len() && a != b implies s@[a].0@ != s@[b].0@ by {
                    if a == n {
                        assert(!assoc_view(o).contains_key(key));
                        if s@[b].0@ == key {
                            assert(o[b].0@ == key);
                        }
                    } else if b == n {
                        assert(!assoc_view(o).contains_key(key));
                        if s@[a].0@ == key {
                            assert(o[a].0@ == key);
                        }
                    }
                }
                let m = assoc_view(s@);
                let want = assoc_view(o).insert(key, ev);
                assert forall|k: Seq<char>| #[trigger] m.contains_key(k) <==> want.contains_key(k) by {
                    if exists|j: int| 0 <= j < o.len() && #[trigger] o[j].0@ == k {
                        let j = choose|j: int| 0 <= j < o.len() && #[trigger] o[j].0@ == k;
                        assert(s@[j].0@ == k);
                    }
                    if k == key {
                        assert(s@[n].0@ == k);
                    }
                    if exists|j: int| 0 <= j < s@.len() && #[trigger] s@[j].0@ == k {
                        let j = choose|j: int| 0 <= j < s@.len() && #[trigger] s@[j].0@ == k;
                        if j != n {
                            assert(o[j].0@ == k);
                        }
                    }
                }
                assert forall|k: Seq<char>| m.contains_key(k) implies #[trigger] m[k] == want[k] by {
                    let j = choose|j: int| 0 <= j < s@.len() && #[trigger] s@[j].0@ == k;
                    if j == n {
                        assert(k == key);
                    } else {
                        assert(o[j].0@ == k);
                        if k == key {
                            assert(!assoc_view(o).contains_key(key));
                        }
                        let c = choose|c: int| 0 <= c < o.len() && #[trigger] o[c].0@ == k;
                        assert(c == j);
                    }
                }
                assert(m =~= want);
                assert(s@[n].1 == ge);
                assert forall|j: int| 0 <= j < s@.len() && s@[j].0@ != key implies exists|ii: int| 0 <= ii < o.len() && #[trigger] o[ii] == s@[j] by {
                    assert(j != n);
                    assert(o[j] == s@[j]);
                }
                assert forall|ii: int| 0 <= ii < o.len() && o[ii].0@ != key implies exists|j: int| 0 <= j < s@.len() && #[trigger] s@[j] == o[ii] by {
                    assert(o[ii] == s@[ii]);
                }
                lemma_keyed_insert(o, s@, key, ge, |e: Entry| temp_of(e));
                lemma_keyed_insert(o, s@, key, ge, |e: Entry| e);
                lemma_keyed_insert(o, s@, key, ge, |e: Entry| entry_full(e));
            }
        },
    }
}

/// Global functions and local names while a body is checked; locals hide globals.
#[derive(Debug)]
pub struct Environment {
    globals: Vec<(String, Entry)>,
    locals: Vec<(String, Entry)>,
}

impl Environment {
    /// No name is bound twice in one scope level.
    pub closed spec fn wf(&self) -> bool {
        distinct_names(self.globals@) && distinct_names(self.locals@)
    }

    /// Every function is bound to the label of its name; the globals are functions and the
    /// locals variables.
    pub closed spec fn labels_ok(&self) -> bool {
        &&& labels_match(self.globals@)
        &&& labels_match(self.locals@)
        &&& kinds_are(self.globals@, true)
        &&& kinds_are(self.locals@, false)
    }

    /// The global bindings in full.
    pub closed spec fn globals_full(&self) -> Map<Seq<char>, Entry> {
        keyed(self.globals@, |e: Entry| e)
    }

    /// The local bindings in full.
    pub closed spec fn local_entries(&self) -> Map<Seq<char>, (TyV, Binding)> {
        keyed(self.locals@, |e: Entry| entry_full(e))
    }

    /// The global bindings in full.
    pub closed spec fn global_entries(&self) -> Map<Seq<char>, (TyV, Binding)> {
        keyed(self.globals@, |e: Entry| entry_full(e))
    }

    /// The registers of the local variables.
    pub closed spec fn temps(&self) -> Map<Seq<char>, usize> {
        temps_view(self.locals@)
    }

    /// The bindings, as maps.
    pub closed spec fn view(&self) -> EnvView {
        EnvView { locals: assoc_view(self.locals@), globals: assoc_view(self.globals@) }
    }

    pub fn new() -> (r: Self)
        ensures
            r.wf(),
            r.labels_ok(),
            r.view().locals == Map::<Seq<char>, EntryView>::empty(),
            r.view().globals == Map::<Seq<char>, EntryView>::empty(),
            r.temps() == Map::<Seq<char>, usize>::empty(),
            r.local_entries() == Map::<Seq<char>, (TyV, Binding)>::empty(),
            r.global_entries() == Map::<Seq<char>, (TyV, Binding)>::empty(),
    {
        let r = Self { globals: Vec::new(), locals: Vec::new() };
        assert(r.local_entries() =~= Map::<Seq<char>, (TyV, Binding)>::empty());
        assert(r.global_entries() =~= Map::<Seq<char>, (TyV, Binding)>::empty());
        assert(assoc_view(r.globals@) =~= Map::<Seq<char>, EntryView>::empty());
        assert(temps_view(r.locals@) =~= Map::<Seq<char>, usize>::empty());
        r
    }

    pub fn insert_local(&mut self, name: String, ty: Entry)
        requires
            old(self).wf(),
        ensures
            final(self).wf(),
            final(self).view().locals == old(self).view().locals.insert(name@, entry_view(ty)),
            final(self).view().globals == old(self).view().globals,
            final(self).temps() == old(self).temps().insert(name@, temp_of(ty)),
            final(self).local_entries() == old(self).local_entries().insert(name@, entry_full(ty)),
            final(self).global_entries() == old(self).global_entries(),
            old(self).labels_ok() && ty.binding is Var ==> final(self).labels_ok(),
    {
        bind(&mut self.locals, name, ty);
    }

    pub fn insert_global(&mut self, name: String, entry: Entry)
        requires
            old(self).wf(),
        ensures
            final(self).wf(),
            final(self).view().globals == old(self).view().globals.insert(name@, entry_view(entry)),
            final(self).view().locals == old(self).view().locals,
            final(self).temps() == old(self).temps(),
            final(self).globals_full() == old(self).globals_full().insert(name@, entry),
            final(self).global_entries() == old(self).global_entries().insert(name@, entry_full(entry)),
            final(self).local_entries() == old(self).local_entries(),
            old(self).labels_ok() && label_ok(name@, entry) && entry.binding is Fun ==> final(self).labels_ok(),
    {
        bind(&mut self.globals, name, entry);
    }

    /// A scope for a function body: the same globals, no locals.
    pub fn for_body(&self) -> (r: Self)
        requires
            self.wf(),
        ensures
            r.wf(),
            r.view().globals == self.view().globals,
            r.view().locals == Map::<Seq<char>, EntryView>::empty(),
            r.temps() == Map::<Seq<char>, usize>::empty(),
            r.global_entries() == self.global_entries(),
            r.local_entries() == Map::<Seq<char>, (TyV, Binding)>::empty(),
            self.labels_ok() ==> r.labels_ok(),
    {
        let r = Self { globals: copy_list(&self.globals), locals: Vec::new() };
        assert(r.local_entries() =~= Map::<Seq<char>, (TyV, Binding)>::empty());
        assert(assoc_view(r.locals@) =~= Map::<Seq<char>, EntryView>::empty());
        assert(temps_view(r.locals@) =~= Map::<Seq<char>, usize>::empty());
        r
    }

    /// This scope with one more local binding (for `let` and parameters).
    pub fn with_local(&self, name: String, entry: Entry) -> (r: Self)
        requires
            self.wf(),
        ensures
            r.wf(),
            r.view().globals == self.view().globals,
            r.view().locals == self.view().locals.insert(name@, entry_view(entry)),
            r.temps() == self.temps().insert(name@, temp_of(entry)),
            r.global_entries() == self.global_entries(),
            r.local_entries() == self.local_entries().insert(name@, entry_full(entry)),
            self.labels_ok() && entry.binding is Var ==> r.labels_ok(),
    {
        let mut clone = self.enter_scope();
        clone.insert_local(name, entry);
        clone
    }

    /// A copy of this scope (for blocks).
    pub fn enter_scope(&self) -> (r: Self)
        requires
            self.wf(),
        ensures
            r.wf(),
            r.view() == self.view(),
            r.temps() == self.temps(),
            r.global_entries() == self.global_entries(),
            r.local_entries() == self.local_entries(),
            self.labels_ok() ==> r.labels_ok(),
    {
        Self { globals: copy_list(&self.globals), locals: copy_list(&self.locals) }
    }

    /// What a name stands for: its local binding, else its global one.
    pub fn lookup(&self, name: &str) -> (r: Option<&Entry>)
        requires
            self.wf(),
        ensures
            r is Some <==> lookup_v(self.view(), name@) is Some,
            r matches Some(e) ==> lookup_v(self.view(), name@) == Some(entry_view(*e)),
            r matches Some(e) ==> entry_full(*e) == (if self.local_entries().contains_key(name@) {
                self.local_entries()[name@]
            } else {
                self.global_entries()[name@]
            }),
            self.labels_ok() ==> (r matches Some(e) ==> label_ok(name@, *e)),
            self.labels_ok() ==> (r matches Some(e) ==> binding_v(*e) == place_v(self.temps(), name@)),
    {
        match find(&self.locals, name) {
            Some(i) => {
                proof {
                    lemma_keyed_at(self.locals@, i as int, |e: Entry| entry_full(e));
                }
                Some(&self.locals[i].1)
            },
            None => match find(&self.globals, name) {
                Some(i) => {
                    proof {
                        lemma_keyed_at(self.globals@, i as int, |e: Entry| entry_full(e));
                        lemma_keyed_absent(self.locals@, name@, |e: Entry| entry_full(e));
                    }
                    Some(&self.globals[i].1)
                },
                None => None,
            },
        }
    }
}

/// What a later lookup gives back of a binding: a local binding is found under its name, and
/// hides a global binding of the same name.
pub proof fn lemma_lookup_after_bind(env: EnvView, k: Seq<char>, e: EntryView, other: Seq<char>)
    ensures
        lookup_v(EnvView { locals: env.locals.insert(k, e), globals: env.globals }, k) == Some(e),
        other != k ==> lookup_v(EnvView { locals: env.locals.insert(k, e), globals: env.globals }, other)
            == lookup_v(env, other),
{
}

} // verus!
