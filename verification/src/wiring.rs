//! Which function tables a Rust-written rule uses for term encoding and
//! proofs: found among the e-graph's functions by name and signature.

use vstd::prelude::*;
use crate::exprs::{call, var, Expr};

verus! {

/// A function table of the e-graph, as its declaration gives it.
pub struct FunctionDecl {
    /// The table's name.
    pub name: String,
    /// The sorts of its inputs.
    pub inputs: Vec<String>,
    /// The sort of its output.
    pub output: String,
    /// For a view table of the term encoding, the surface constructor it stands for.
    pub term_constructor: Option<String>,
}

/// `needle` occurs in `hay` as a contiguous piece.
pub open spec fn has_substring(hay: Seq<char>, needle: Seq<char>) -> bool {
    exists|i: int|
        0 <= i && i + needle.len() <= hay.len() && #[trigger] hay.subrange(i, i + needle.len())
            == needle
}

/// `str::contains` with a string pattern: whether `needle` occurs in `hay`
/// as a contiguous piece.
#[verifier::external_body]
fn str_contains(hay: &str, needle: &str) -> (r: bool)
    ensures
        r == has_substring(hay@, needle@),
{
    hay.contains(needle)
}

/// What a table is looked for as.
pub enum Role {
    /// The view-proof table that fixes the proof sort.
    ViewProofSort,
    /// The table of proofs taken on faith, for the given proof sort.
    Fiat(String),
    /// The rule-proof constructor, for the given proof sort.
    Rule(String),
    /// The empty proof list constructor.
    PNil,
    /// The table that turns a term of the given sort into its AST.
    ToAst(String),
    /// The term-proof table of the given sort, for the given proof sort.
    TermProof(String, String),
    /// The view-proof table of the given constructor, for the given proof
    /// sort: one input more than the constructor's table (given by its
    /// number of inputs), or no inputs when there is no such table.
    ViewProof(String, String, Option<usize>),
}

/// A `Role` with its strings as character sequences.
pub enum RoleSpec {
    ViewProofSort,
    Fiat(Seq<char>),
    Rule(Seq<char>),
    PNil,
    ToAst(Seq<char>),
    TermProof(Seq<char>, Seq<char>),
    ViewProof(Seq<char>, Seq<char>, nat),
}

impl View for Role {
    type V = RoleSpec;

    open spec fn view(&self) -> RoleSpec {
        match self {
            Role::ViewProofSort => RoleSpec::ViewProofSort,
            Role::Fiat(p) => RoleSpec::Fiat(p@),
            Role::Rule(p) => RoleSpec::Rule(p@),
            Role::PNil => RoleSpec::PNil,
            Role::ToAst(s) => RoleSpec::ToAst(s@),
            Role::TermProof(s, p) => RoleSpec::TermProof(s@, p@),
            Role::ViewProof(t, p, a) => RoleSpec::ViewProof(
                t@,
                p@,
                match a {
                    Some(m) => (*m + 1) as nat,
                    None => 0,
                },
            ),
        }
    }
}

/// The function's only input has sort `s`.
pub open spec fn single_input(f: FunctionDecl, s: Seq<char>) -> bool {
    f.inputs@.len() == 1 && f.inputs@[0]@ == s
}

/// Whether table `f` fits `role`.
pub open spec fn role_holds(role: RoleSpec, f: FunctionDecl) -> bool {
    match role {
        RoleSpec::ViewProofSort => has_substring(f.name@, "ViewProof"@) && f.output@ != "Unit"@,
        RoleSpec::Fiat(p) => has_substring(f.name@, "Fiat"@) && f.output@ == p,
        RoleSpec::Rule(p) => has_substring(f.name@, "Rule"@) && f.output@ == p
            && f.inputs@.len() == 4 && f.inputs@[0]@ == "String"@,
        RoleSpec::PNil => has_substring(f.name@, "PNil"@) && f.inputs@.len() == 0,
        RoleSpec::ToAst(s) => has_substring(f.name@, "Ast"@ + s) && single_input(f, s),
        RoleSpec::TermProof(s, p) => has_substring(f.name@, s + "Proof"@) && !has_substring(
            f.name@,
            "ViewProof"@,
        ) && single_input(f, s) && f.output@ == p,
        RoleSpec::ViewProof(t, p, n) => has_substring(f.name@, t + "ViewProof"@) && f.output@
            == p && f.inputs@.len() == n,
    }
}

/// The first index below `n` whose table satisfies `p`.
pub open spec fn first_upto(fs: Seq<FunctionDecl>, p: spec_fn(FunctionDecl) -> bool, n: int) -> Option<
    int,
>
    decreases n,
{
    if n <= 0 {
        None
    } else {
        match first_upto(fs, p, n - 1) {
            Some(i) => Some(i),
            None => if p(fs[n - 1]) {
                Some(n - 1)
            } else {
                None
            },
        }
    }
}

/// Fitting `role`, as a predicate.
pub open spec fn role_pred(role: RoleSpec) -> spec_fn(FunctionDecl) -> bool {
    |f: FunctionDecl| role_holds(role, f)
}

/// Being named `name`, as a predicate.
pub open spec fn name_pred(name: Seq<char>) -> spec_fn(FunctionDecl) -> bool {
    |f: FunctionDecl| f.name@ == name
}

/// The first table that fits `role`.
pub open spec fn first_with(fs: Seq<FunctionDecl>, role: RoleSpec) -> Option<int> {
    first_upto(fs, role_pred(role), fs.len() as int)
}

/// The first table named `name`.
pub open spec fn first_named(fs: Seq<FunctionDecl>, name: Seq<char>) -> Option<int> {
    first_upto(fs, name_pred(name), fs.len() as int)
}

/// Once found, the first match stays the first match further on.
proof fn lemma_first_upto_stable(fs: Seq<FunctionDecl>, p: spec_fn(FunctionDecl) -> bool, n: int, m: int)
    requires
        n <= m,
        first_upto(fs, p, n) is Some,
    ensures
        first_upto(fs, p, m) == first_upto(fs, p, n),
    decreases m - n,
{
    if n < m {
        lemma_first_upto_stable(fs, p, n, m - 1);
    }
}

/// What `first_upto` finds is below `n` and satisfies the predicate.
proof fn lemma_first_upto_found(fs: Seq<FunctionDecl>, p: spec_fn(FunctionDecl) -> bool, n: int)
    ensures
        first_upto(fs, p, n) matches Some(i) ==> 0 <= i < n && p(fs[i]),
    decreases n,
{
    if n > 0 {
        lemma_first_upto_found(fs, p, n - 1);
    }
}

/// The table that `first_with` finds is a table of `fs` that fits `role`.
proof fn lemma_first_with_fits(fs: Seq<FunctionDecl>, role: RoleSpec)
    ensures
        first_with(fs, role) matches Some(i) ==> 0 <= i < fs.len() && role_holds(role, fs[i]),
{
    lemma_first_upto_found(fs, role_pred(role), fs.len() as int);
}

/// Whether `f` fits `role`.
fn fits(role: &Role, f: &FunctionDecl) -> (r: bool)
    ensures
        r == role_holds(role@, *f),
{
    match role {
        Role::ViewProofSort => {
            str_contains(f.name.as_str(), "ViewProof") && !(f.output == String::from_str("Unit"))
        },
        Role::Fiat(p) => str_contains(f.name.as_str(), "Fiat") && f.output == *p,
        Role::Rule(p) => {
            str_contains(f.name.as_str(), "Rule") && f.output == *p && f.inputs.len() == 4
                && f.inputs[0] == String::from_str("String")
        },
        Role::PNil => str_contains(f.name.as_str(), "PNil") && f.inputs.len() == 0,
        Role::ToAst(s) => {
            let needle = String::from_str("Ast").concat(s.as_str());
            str_contains(f.name.as_str(), needle.as_str()) && f.inputs.len() == 1 && f.inputs[0]
                == *s
        },
        Role::TermProof(s, p) => {
            let needle = s.clone().concat("Proof");
            str_contains(f.name.as_str(), needle.as_str()) && !str_contains(
                f.name.as_str(),
                "ViewProof",
            ) && f.inputs.len() == 1 && f.inputs[0] == *s && f.output == *p
        },
        Role::ViewProof(t, p, n) => {
            let needle = t.clone().concat("ViewProof");
            str_contains(f.name.as_str(), needle.as_str()) && f.output == *p && match n {
                Some(m) => f.inputs.len() > 0 && f.inputs.len() - 1 == *m,
                None => f.inputs.len() == 0,
            }
        },
    }
}

/// The first table that fits `role`.
pub fn first_with_role(fs: &Vec<FunctionDecl>, role: &Role) -> (r: Option<usize>)
    ensures
        match r {
            Some(i) => first_with(fs@, role@) == Some(i as int),
            None => first_with(fs@, role@) is None,
        },
        r matches Some(i) ==> i < fs@.len() && role_holds(role@, fs@[i as int]),
{
    let ghost p = role_pred(role@);
    let mut i: usize = 0;
    while i < fs.len()
        invariant
            i <= fs@.len(),
            p == role_pred(role@),
            first_upto(fs@, p, i as int) is None,
        decreases fs.len() - i,
    {
        let b = fits(role, &fs[i]);
        assert(p(fs@[i as int]) == b);
        if b {
            assert(first_upto(fs@, p, i + 1) == Some(i as int));
            proof {
                lemma_first_upto_stable(fs@, p, i + 1, fs@.len() as int);
            }
            return Some(i);
        }
        assert(first_upto(fs@, p, i + 1) is None);
        i = i + 1;
    }
    None
}

/// The first table named `name`.
pub fn first_named_index(fs: &Vec<FunctionDecl>, name: &String) -> (r: Option<usize>)
    ensures
        match r {
            Some(i) => first_named(fs@, name@) == Some(i as int),
            None => first_named(fs@, name@) is None,
        },
        r matches Some(i) ==> i < fs@.len() && fs@[i as int].name@ == name@,
{
    let ghost p = name_pred(name@);
    let mut i: usize = 0;
    while i < fs.len()
        invariant
            i <= fs@.len(),
            p == name_pred(name@),
            first_upto(fs@, p, i as int) is None,
        decreases fs.len() - i,
    {
        let b = fs[i].name == *name;
        assert(p(fs@[i as int]) == b);
        if b {
            assert(first_upto(fs@, p, i + 1) == Some(i as int));
            proof {
                lemma_first_upto_stable(fs@, p, i + 1, fs@.len() as int);
            }
            return Some(i);
        }
        assert(first_upto(fs@, p, i + 1) is None);
        i = i + 1;
    }
    None
}

/// The value of the latest entry with key `k`.
pub open spec fn lookup_index(m: Seq<(String, usize)>, k: Seq<char>) -> Option<int>
    decreases m.len(),
{
    if m.len() == 0 {
        None
    } else if m.last().0@ == k {
        Some(m.last().1 as int)
    } else {
        lookup_index(m.drop_last(), k)
    }
}

/// The value of the latest entry with key `k`.
pub open spec fn lookup_text(m: Seq<(String, String)>, k: Seq<char>) -> Option<Seq<char>>
    decreases m.len(),
{
    if m.len() == 0 {
        None
    } else if m.last().0@ == k {
        Some(m.last().1@)
    } else {
        lookup_text(m.drop_last(), k)
    }
}

/// Some entry of `m` has value `v`.
pub open spec fn has_value(m: Seq<(String, String)>, v: Seq<char>) -> bool {
    exists|k: int| 0 <= k < m.len() && (#[trigger] m[k]).1@ == v
}

/// Some string of `v` is `s`.
pub open spec fn has_text(v: Seq<String>, s: Seq<char>) -> bool {
    exists|k: int| 0 <= k < v.len() && (#[trigger] v[k])@ == s
}

/// The value of the latest entry with key `k`.
pub(crate) fn find_index(m: &Vec<(String, usize)>, k: &String) -> (r: Option<usize>)
    ensures
        match r {
            Some(v) => lookup_index(m@, k@) == Some(v as int),
            None => lookup_index(m@, k@) is None,
        },
{
    let mut i = m.len();
    assert(m@.subrange(0, i as int) == m@);
    while i > 0
        invariant
            i <= m@.len(),
            lookup_index(m@, k@) == lookup_index(m@.subrange(0, i as int), k@),
        decreases i,
    {
        let ghost prefix = m@.subrange(0, i as int);
        assert(prefix.drop_last() == m@.subrange(0, i - 1));
        if m[i - 1].0 == *k {
            return Some(m[i - 1].1);
        }
        i = i - 1;
    }
    None
}

/// The value of the latest entry with key `k`.
pub(crate) fn find_text(m: &Vec<(String, String)>, k: &String) -> (r: Option<String>)
    ensures
        opt_text(r) == lookup_text(m@, k@),
{
    let mut i = m.len();
    assert(m@.subrange(0, i as int) == m@);
    while i > 0
        invariant
            i <= m@.len(),
            lookup_text(m@, k@) == lookup_text(m@.subrange(0, i as int), k@),
        decreases i,
    {
        let ghost prefix = m@.subrange(0, i as int);
        assert(prefix.drop_last() == m@.subrange(0, i - 1));
        if m[i - 1].0 == *k {
            return Some(m[i - 1].1.clone());
        }
        i = i - 1;
    }
    None
}

/// Whether some string of `v` equals `s`.
fn contains_text(v: &Vec<String>, s: &String) -> (r: bool)
    ensures
        r == has_text(v@, s@),
{
    let mut i: usize = 0;
    while i < v.len()
        invariant
            i <= v@.len(),
            forall|k: int| 0 <= k < i ==> (#[trigger] v@[k])@ != s@,
        decreases v.len() - i,
    {
        if v[i] == *s {
            return true;
        }
        i = i + 1;
    }
    false
}

/// Table `f` is the view table of surface constructor `t`.
pub open spec fn constructs(f: FunctionDecl, t: Seq<char>) -> bool {
    match f.term_constructor {
        Some(c) => c@ == t,
        None => false,
    }
}

/// The last index below `n` whose table is the view table of `t`.
pub open spec fn last_constructor_upto(fs: Seq<FunctionDecl>, t: Seq<char>, n: int) -> Option<int>
    decreases n,
{
    if n <= 0 {
        None
    } else if constructs(fs[n - 1], t) {
        Some(n - 1)
    } else {
        last_constructor_upto(fs, t, n - 1)
    }
}

/// The last table that is the view table of `t` (a later one replaces an
/// earlier one).
pub open spec fn last_constructor(fs: Seq<FunctionDecl>, t: Seq<char>) -> Option<int> {
    last_constructor_upto(fs, t, fs.len() as int)
}

/// What `last_constructor_upto` finds.
proof fn lemma_last_constructor_upto(fs: Seq<FunctionDecl>, t: Seq<char>, n: int)
    ensures
        match last_constructor_upto(fs, t, n) {
            Some(j) => 0 <= j < n && constructs(fs[j], t) && forall|k: int|
                j < k < n ==> !constructs(#[trigger] fs[k], t),
            None => forall|k: int| 0 <= k < n ==> !constructs(#[trigger] fs[k], t),
        },
    decreases n,
{
    if n > 0 {
        lemma_last_constructor_upto(fs, t, n - 1);
    }
}

/// The last view table of `t` among indices `i..n`, if any.
pub open spec fn constructor_seen(fs: Seq<FunctionDecl>, t: Seq<char>, n: int, i: int) -> Option<
    int,
> {
    match last_constructor_upto(fs, t, n) {
        Some(j) => if j >= i {
            Some(j)
        } else {
            None
        },
        None => None,
    }
}

/// For every surface constructor, its view table: the last table whose
/// declaration names that constructor.
pub fn view_tables(fs: &Vec<FunctionDecl>) -> (r: Vec<(String, usize)>)
    ensures
        forall|t: Seq<char>| #[trigger] lookup_index(r@, t) == last_constructor(fs@, t),
{
    let n = fs.len();
    let mut r: Vec<(String, usize)> = Vec::new();
    let mut i = n;
    assert forall|t: Seq<char>| #[trigger]
        lookup_index(r@, t) == constructor_seen(fs@, t, n as int, i as int) by {
        lemma_last_constructor_upto(fs@, t, n as int);
    }
    while i > 0
        invariant
            n == fs@.len(),
            i <= n,
            forall|t: Seq<char>| #[trigger]
                lookup_index(r@, t) == constructor_seen(fs@, t, n as int, i as int),
        decreases i,
    {
        let j = i - 1;
        let ghost old_r = r@;
        match &fs[j].term_constructor {
            Some(c) => {
                let found = find_index(&r, c);
                if found.is_none() {
                    r.push((c.clone(), j));
                }
                assert forall|t: Seq<char>| #[trigger]
                    lookup_index(r@, t) == constructor_seen(fs@, t, n as int, j as int) by {
                    lemma_last_constructor_upto(fs@, t, n as int);
                    assert(fs@[j as int].term_constructor == Some(*c));
                    if found.is_none() {
                        assert(r@.drop_last() == old_r);
                        assert(r@.last().0@ == c@);
                    }
                    if t == c@ {
                        assert(constructs(fs@[j as int], t));
                        if found.is_none() {
                            assert(lookup_index(old_r, t) is None);
                            assert(constructor_seen(fs@, t, n as int, i as int) is None);
                            assert(lookup_index(r@, t) == Some(j as int));
                        }
                    } else {
                        assert(!constructs(fs@[j as int], t));
                        assert(lookup_index(r@, t) == lookup_index(old_r, t));
                    }
                }
            },
            None => {
                assert forall|t: Seq<char>| #[trigger]
                    lookup_index(r@, t) == constructor_seen(fs@, t, n as int, j as int) by {
                    lemma_last_constructor_upto(fs@, t, n as int);
                }
            },
        }
        i = j;
    }
    assert forall|t: Seq<char>| #[trigger] lookup_index(r@, t) == last_constructor(fs@, t) by {
        lemma_last_constructor_upto(fs@, t, n as int);
    }
    r
}

/// The output sort of the table named `t`, if there is one.
pub open spec fn output_sort_of(fs: Seq<FunctionDecl>, t: Seq<char>) -> Option<Seq<char>> {
    match first_named(fs, t) {
        Some(i) => Some(fs[i].output@),
        None => None,
    }
}

/// One more than the number of inputs of the table named `t`, or zero when
/// there is no such table.
pub open spec fn view_proof_arity(fs: Seq<FunctionDecl>, t: Seq<char>) -> nat {
    match first_named(fs, t) {
        Some(i) => fs[i].inputs@.len() + 1,
        None => 0,
    }
}

/// The proof sort: the output of the first view-proof table whose output is
/// not `Unit`.
pub open spec fn proof_sort_of(fs: Seq<FunctionDecl>) -> Option<Seq<char>> {
    match first_with(fs, RoleSpec::ViewProofSort) {
        Some(i) => Some(fs[i].output@),
        None => None,
    }
}

/// An optional index as an optional integer.
pub open spec fn opt_int(o: Option<usize>) -> Option<int> {
    match o {
        Some(i) => Some(i as int),
        None => None,
    }
}

/// An optional string as optional characters.
pub open spec fn opt_text(o: Option<String>) -> Option<Seq<char>> {
    match o {
        Some(s) => Some(s@),
        None => None,
    }
}

/// For every constructor with a view table, the output sort of the table of
/// the same name, where there is one.
fn output_sorts(fs: &Vec<FunctionDecl>, views: &Vec<(String, usize)>) -> (r: Vec<(String, String)>)
    ensures
        forall|t: Seq<char>| #[trigger]
            lookup_text(r@, t) == (if lookup_index(views@, t) is Some {
                output_sort_of(fs@, t)
            } else {
                None
            }),
{
    let mut r: Vec<(String, String)> = Vec::new();
    let mut k: usize = 0;
    while k < views.len()
        invariant
            k <= views@.len(),
            forall|t: Seq<char>| #[trigger]
                lookup_text(r@, t) == (if lookup_index(views@.subrange(0, k as int), t) is Some {
                    output_sort_of(fs@, t)
                } else {
                    None
                }),
        decreases views.len() - k,
    {
        let ghost old_r = r@;
        let t = &views[k].0;
        let found = first_named_index(fs, t);
        if let Some(i) = found {
            r.push((t.clone(), fs[i].output.clone()));
        }
        assert forall|u: Seq<char>| #[trigger]
            lookup_text(r@, u) == (if lookup_index(views@.subrange(0, k + 1), u) is Some {
                output_sort_of(fs@, u)
            } else {
                None
            }) by {
            let pre = views@.subrange(0, k as int);
            let next = views@.subrange(0, k + 1);
            assert(next.drop_last() == pre);
            assert(next.last().0 == *t);
            if found.is_some() {
                assert(r@.drop_last() == old_r);
                assert(r@.last().0@ == t@);
            }
            if u == t@ {
                assert(lookup_index(next, u) is Some);
            } else {
                assert(lookup_index(next, u) == lookup_index(pre, u));
                assert(lookup_text(r@, u) == lookup_text(old_r, u));
            }
        }
        k = k + 1;
    }
    assert(views@.subrange(0, views@.len() as int) == views@);
    r
}

/// The distinct output sorts among `m`'s values.
fn distinct_values(m: &Vec<(String, String)>) -> (r: Vec<String>)
    ensures
        forall|s: Seq<char>| #[trigger] has_text(r@, s) == has_value(m@, s),
{
    let mut r: Vec<String> = Vec::new();
    let mut k: usize = 0;
    while k < m.len()
        invariant
            k <= m@.len(),
            forall|s: Seq<char>| #[trigger]
                has_text(r@, s) == has_value(m@.subrange(0, k as int), s),
        decreases m.len() - k,
    {
        let ghost old_r = r@;
        let v = &m[k].1;
        let present = contains_text(&r, v);
        if !present {
            r.push(v.clone());
        }
        assert forall|s: Seq<char>| #[trigger]
            has_text(r@, s) == has_value(m@.subrange(0, k + 1), s) by {
            let pre = m@.subrange(0, k as int);
            let next = m@.subrange(0, k + 1);
            if has_value(next, s) {
                let w = choose|w: int| 0 <= w < next.len() && (#[trigger] next[w]).1@ == s;
                if w < k {
                    assert(pre[w] == next[w]);
                    assert(has_value(pre, s));
                    assert(has_text(old_r, s));
                    let z = choose|z: int| 0 <= z < old_r.len() && (#[trigger] old_r[z])@ == s;
                    assert(r@[z] == old_r[z]);
                } else if !present {
                    assert(r@[old_r.len() as int]@ == s);
                } else {
                    assert(has_text(old_r, s));
                    let z = choose|z: int| 0 <= z < old_r.len() && (#[trigger] old_r[z])@ == s;
                    assert(r@[z] == old_r[z]);
                }
            }
            if has_text(r@, s) {
                let z = choose|z: int| 0 <= z < r@.len() && (#[trigger] r@[z])@ == s;
                if z < old_r.len() {
                    assert(old_r[z] == r@[z]);
                    assert(has_text(old_r, s));
                    assert(has_value(pre, s));
                    let w = choose|w: int| 0 <= w < pre.len() && (#[trigger] pre[w]).1@ == s;
                    assert(next[w] == pre[w]);
                } else {
                    assert(next[k as int].1@ == s);
                }
            }
        }
        k = k + 1;
    }
    assert(m@.subrange(0, m@.len() as int) == m@);
    r
}

/// Membership in a growing prefix.
proof fn lemma_has_text_prefix(v: Seq<String>, k: int, s: Seq<char>)
    requires
        0 <= k < v.len(),
    ensures
        has_text(v.subrange(0, k + 1), s) == (has_text(v.subrange(0, k), s) || v[k]@ == s),
{
    let pre = v.subrange(0, k);
    let next = v.subrange(0, k + 1);
    if has_text(next, s) {
        let w = choose|w: int| 0 <= w < next.len() && (#[trigger] next[w])@ == s;
        if w < k {
            assert(pre[w] == next[w]);
        }
    }
    if has_text(pre, s) {
        let w = choose|w: int| 0 <= w < pre.len() && (#[trigger] pre[w])@ == s;
        assert(next[w] == pre[w]);
    }
    if v[k]@ == s {
        assert(next[k] == v[k]);
    }
}

/// The keys of `m`.
fn keys_of(m: &Vec<(String, usize)>) -> (r: Vec<String>)
    ensures
        forall|t: Seq<char>| #[trigger] has_text(r@, t) == (lookup_index(m@, t) is Some),
{
    let mut r: Vec<String> = Vec::new();
    let mut k: usize = 0;
    while k < m.len()
        invariant
            k <= m@.len(),
            r@.len() == k,
            forall|j: int| 0 <= j < k ==> (#[trigger] r@[j])@ == m@[j].0@,
        decreases m.len() - k,
    {
        r.push(m[k].0.clone());
        k = k + 1;
    }
    assert forall|t: Seq<char>| #[trigger] has_text(r@, t) == (lookup_index(m@, t) is Some) by {
        lemma_lookup_index_some(m@, t);
        if has_text(r@, t) {
            let j = choose|j: int| 0 <= j < r@.len() && (#[trigger] r@[j])@ == t;
            assert(m@[j].0@ == t);
        }
        if lookup_index(m@, t) is Some {
            let j = choose|j: int| 0 <= j < m@.len() && (#[trigger] m@[j]).0@ == t;
            assert(r@[j]@ == t);
        }
    }
    r
}

/// `lookup_index` finds a key exactly when some entry has it.
proof fn lemma_lookup_index_some(m: Seq<(String, usize)>, t: Seq<char>)
    ensures
        (lookup_index(m, t) is Some) == (exists|j: int| 0 <= j < m.len() && (#[trigger] m[j]).0@ == t),
    decreases m.len(),
{
    if m.len() > 0 {
        lemma_lookup_index_some(m.drop_last(), t);
        if exists|j: int| 0 <= j < m.len() && (#[trigger] m[j]).0@ == t {
            let j = choose|j: int| 0 <= j < m.len() && (#[trigger] m[j]).0@ == t;
            if j < m.len() - 1 {
                assert(m.drop_last()[j] == m[j]);
            }
        }
        if exists|j: int| 0 <= j < m.len() - 1 && (#[trigger] m.drop_last()[j]).0@ == t {
            let j = choose|j: int| 0 <= j < m.len() - 1 && (#[trigger] m.drop_last()[j]).0@ == t;
            assert(m[j] == m.drop_last()[j]);
        }
    }
}

/// For every sort in `keys`, its AST table.
fn ast_tables(fs: &Vec<FunctionDecl>, keys: &Vec<String>) -> (r: Vec<(String, usize)>)
    ensures
        forall|s: Seq<char>| #[trigger]
            lookup_index(r@, s) == (if has_text(keys@, s) {
                first_with(fs@, RoleSpec::ToAst(s))
            } else {
                None
            }),
{
    let mut r: Vec<(String, usize)> = Vec::new();
    let mut k: usize = 0;
    while k < keys.len()
        invariant
            k <= keys@.len(),
            forall|s: Seq<char>| #[trigger]
                lookup_index(r@, s) == (if has_text(keys@.subrange(0, k as int), s) {
                    first_with(fs@, RoleSpec::ToAst(s))
                } else {
                    None
                }),
        decreases keys.len() - k,
    {
        let ghost old_r = r@;
        let key = &keys[k];
        let role = Role::ToAst(key.clone());
        let found = first_with_role(fs, &role);
        if let Some(i) = found {
            r.push((key.clone(), i));
        }
        assert forall|s: Seq<char>| #[trigger]
            lookup_index(r@, s) == (if has_text(keys@.subrange(0, k + 1), s) {
                first_with(fs@, RoleSpec::ToAst(s))
            } else {
                None
            }) by {
            lemma_has_text_prefix(keys@, k as int, s);
            if found.is_some() {
                assert(r@.drop_last() == old_r);
                assert(r@.last().0@ == key@);
            }
            if s == key@ {
                assert(role@ == RoleSpec::ToAst(s));
            } else {
                assert(lookup_index(r@, s) == lookup_index(old_r, s));
            }
        }
        k = k + 1;
    }
    assert(keys@.subrange(0, keys@.len() as int) == keys@);
    r
}

/// For every sort in `keys`, its term-proof table for proof sort `p`.
fn term_proof_tables(fs: &Vec<FunctionDecl>, keys: &Vec<String>, p: &String) -> (r: Vec<(String, usize)>)
    ensures
        forall|s: Seq<char>| #[trigger]
            lookup_index(r@, s) == (if has_text(keys@, s) {
                first_with(fs@, RoleSpec::TermProof(s, p@))
            } else {
                None
            }),
{
    let mut r: Vec<(String, usize)> = Vec::new();
    let mut k: usize = 0;
    while k < keys.len()
        invariant
            k <= keys@.len(),
            forall|s: Seq<char>| #[trigger]
                lookup_index(r@, s) == (if has_text(keys@.subrange(0, k as int), s) {
                    first_with(fs@, RoleSpec::TermProof(s, p@))
                } else {
                    None
                }),
        decreases keys.len() - k,
    {
        let ghost old_r = r@;
        let key = &keys[k];
        let role = Role::TermProof(key.clone(), p.clone());
        let found = first_with_role(fs, &role);
        if let Some(i) = found {
            r.push((key.clone(), i));
        }
        assert forall|s: Seq<char>| #[trigger]
            lookup_index(r@, s) == (if has_text(keys@.subrange(0, k + 1), s) {
                first_with(fs@, RoleSpec::TermProof(s, p@))
            } else {
                None
            }) by {
            lemma_has_text_prefix(keys@, k as int, s);
            if found.is_some() {
                assert(r@.drop_last() == old_r);
                assert(r@.last().0@ == key@);
            }
            if s == key@ {
                assert(role@ == RoleSpec::TermProof(s, p@));
            } else {
                assert(lookup_index(r@, s) == lookup_index(old_r, s));
            }
        }
        k = k + 1;
    }
    assert(keys@.subrange(0, keys@.len() as int) == keys@);
    r
}

/// For every constructor in `keys`, its view-proof table for proof sort `p`.
fn view_proof_tables(fs: &Vec<FunctionDecl>, keys: &Vec<String>, p: &String) -> (r: Vec<(String, usize)>)
    ensures
        forall|s: Seq<char>| #[trigger]
            lookup_index(r@, s) == (if has_text(keys@, s) {
                first_with(fs@, RoleSpec::ViewProof(s, p@, view_proof_arity(fs@, s)))
            } else {
                None
            }),
{
    let mut r: Vec<(String, usize)> = Vec::new();
    let mut k: usize = 0;
    while k < keys.len()
        invariant
            k <= keys@.len(),
            forall|s: Seq<char>| #[trigger]
                lookup_index(r@, s) == (if has_text(keys@.subrange(0, k as int), s) {
                    first_with(fs@, RoleSpec::ViewProof(s, p@, view_proof_arity(fs@, s)))
                } else {
                    None
                }),
        decreases keys.len() - k,
    {
        let ghost old_r = r@;
        let key = &keys[k];
        let role = {
            let arity = match first_named_index(fs, key) {
                Some(i) => Some(fs[i].inputs.len()),
                None => None,
            };
            Role::ViewProof(key.clone(), p.clone(), arity)
        };
        let found = first_with_role(fs, &role);
        if let Some(i) = found {
            r.push((key.clone(), i));
        }
        assert forall|s: Seq<char>| #[trigger]
            lookup_index(r@, s) == (if has_text(keys@.subrange(0, k + 1), s) {
                first_with(fs@, RoleSpec::ViewProof(s, p@, view_proof_arity(fs@, s)))
            } else {
                None
            }) by {
            lemma_has_text_prefix(keys@, k as int, s);
            if found.is_some() {
                assert(r@.drop_last() == old_r);
                assert(r@.last().0@ == key@);
            }
            if s == key@ {
                assert(role@ == RoleSpec::ViewProof(s, p@, view_proof_arity(fs@, s)));
            } else {
                assert(lookup_index(r@, s) == lookup_index(old_r, s));
            }
        }
        k = k + 1;
    }
    assert(keys@.subrange(0, keys@.len() as int) == keys@);
    r
}

/// The tables a Rust-written rule works with, found among the e-graph's
/// function tables. Each list maps a name (a constructor or a sort) to the
/// index of a table; a name occurs at most once where it matters, and its
/// latest entry counts.
pub struct ProofWiring {
    /// For each surface constructor, its view table.
    pub view_tables: Vec<(String, usize)>,
    /// The sort of proofs, when proofs are recorded.
    pub proof_sort: Option<String>,
    /// The table of proofs taken on faith.
    pub fiat: Option<usize>,
    /// The rule-proof constructor.
    pub rule: Option<usize>,
    /// The empty proof list constructor.
    pub pnil: Option<usize>,
    /// For each constructor with a view table, the output sort of its term table.
    pub term_output_sorts: Vec<(String, String)>,
    /// For each such sort, the table that turns its terms into ASTs.
    pub to_ast: Vec<(String, usize)>,
    /// For each such sort, its term-proof table.
    pub term_proof: Vec<(String, usize)>,
    /// For each constructor with a view table, its view-proof table.
    pub view_proof: Vec<(String, usize)>,
}

/// Find, among the e-graph's function tables in declaration order, the
/// tables that a Rust-written rule needs: the view table of each surface
/// constructor (the last one declared), and, when term encoding with proofs
/// is on, the proof sort and the proof tables. Each table is the first one
/// whose name and signature fit (see `role_holds`).
pub fn rust_rule_wiring(fs: &Vec<FunctionDecl>) -> (w: ProofWiring)
    ensures
        forall|t: Seq<char>| #[trigger] lookup_index(w.view_tables@, t) == last_constructor(fs@, t),
        forall|t: Seq<char>| #[trigger]
            lookup_text(w.term_output_sorts@, t) == (if last_constructor(fs@, t) is Some {
                output_sort_of(fs@, t)
            } else {
                None
            }),
        opt_text(w.proof_sort) == proof_sort_of(fs@),
        opt_int(w.fiat) == (match proof_sort_of(fs@) {
            Some(p) => first_with(fs@, RoleSpec::Fiat(p)),
            None => None,
        }),
        opt_int(w.rule) == (match proof_sort_of(fs@) {
            Some(p) => first_with(fs@, RoleSpec::Rule(p)),
            None => None,
        }),
        opt_int(w.pnil) == first_with(fs@, RoleSpec::PNil),
        forall|s: Seq<char>| #[trigger]
            lookup_index(w.to_ast@, s) == (if has_value(w.term_output_sorts@, s) {
                first_with(fs@, RoleSpec::ToAst(s))
            } else {
                None
            }),
        forall|s: Seq<char>| #[trigger]
            lookup_index(w.term_proof@, s) == (match proof_sort_of(fs@) {
                Some(p) => if has_value(w.term_output_sorts@, s) {
                    first_with(fs@, RoleSpec::TermProof(s, p))
                } else {
                    None
                },
                None => None,
            }),
        forall|t: Seq<char>| #[trigger]
            lookup_index(w.view_proof@, t) == (match proof_sort_of(fs@) {
                Some(p) => if last_constructor(fs@, t) is Some {
                    first_with(fs@, RoleSpec::ViewProof(t, p, view_proof_arity(fs@, t)))
                } else {
                    None
                },
                None => None,
            }),
        forall|t: Seq<char>| #[trigger]
            lookup_index(w.view_tables@, t) matches Some(i) ==> 0 <= i < fs@.len()
                && opt_text(fs@[i].term_constructor) == Some(t),
        w.proof_sort matches Some(p) ==> exists|i: int|
            0 <= i < fs@.len() && #[trigger] fs@[i].output@ == p@ && has_substring(
                fs@[i].name@,
                "ViewProof"@,
            ) && p@ != "Unit"@,
        w.fiat matches Some(i) ==> i < fs@.len() && has_substring(fs@[i as int].name@, "Fiat"@)
            && opt_text(w.proof_sort) == Some(fs@[i as int].output@),
        w.rule matches Some(i) ==> i < fs@.len() && has_substring(fs@[i as int].name@, "Rule"@)
            && opt_text(w.proof_sort) == Some(fs@[i as int].output@)
            && fs@[i as int].inputs@.len() == 4 && fs@[i as int].inputs@[0]@ == "String"@,
        w.pnil matches Some(i) ==> i < fs@.len() && has_substring(fs@[i as int].name@, "PNil"@)
            && fs@[i as int].inputs@.len() == 0,
        forall|s: Seq<char>| #[trigger]
            lookup_index(w.to_ast@, s) matches Some(i) ==> 0 <= i < fs@.len()
                && fs@[i].inputs@.len() == 1 && fs@[i].inputs@[0]@ == s && has_substring(
                fs@[i].name@,
                "Ast"@ + s,
            ),
        forall|s: Seq<char>| #[trigger]
            lookup_index(w.term_proof@, s) matches Some(i) ==> 0 <= i < fs@.len()
                && fs@[i].inputs@.len() == 1 && fs@[i].inputs@[0]@ == s && has_substring(
                fs@[i].name@,
                s + "Proof"@,
            ) && !has_substring(fs@[i].name@, "ViewProof"@)
                && opt_text(w.proof_sort) == Some(fs@[i].output@),
        forall|t: Seq<char>| #[trigger]
            lookup_index(w.view_proof@, t) matches Some(i) ==> 0 <= i < fs@.len() && has_substring(
                fs@[i].name@,
                t + "ViewProof"@,
            ) && opt_text(w.proof_sort) == Some(fs@[i].output@) && fs@[i].inputs@.len()
                == view_proof_arity(fs@, t),
{
    let view_tables = view_tables(fs);
    let proof_sort = match first_with_role(fs, &Role::ViewProofSort) {
        Some(i) => Some(fs[i].output.clone()),
        None => None,
    };
    let (fiat, rule) = match &proof_sort {
        Some(p) => (
            first_with_role(fs, &Role::Fiat(p.clone())),
            first_with_role(fs, &Role::Rule(p.clone())),
        ),
        None => (None, None),
    };
    let pnil = first_with_role(fs, &Role::PNil);
    let term_output_sorts = output_sorts(fs, &view_tables);
    let sorts = distinct_values(&term_output_sorts);
    let to_ast = ast_tables(fs, &sorts);
    let view_keys = keys_of(&view_tables);
    let (term_proof, view_proof) = match &proof_sort {
        Some(p) => (term_proof_tables(fs, &sorts, p), view_proof_tables(fs, &view_keys, p)),
        None => (Vec::new(), Vec::new()),
    };
    let w = ProofWiring {
        view_tables,
        proof_sort,
        fiat,
        rule,
        pnil,
        term_output_sorts,
        to_ast,
        term_proof,
        view_proof,
    };
    proof {
        lemma_first_with_fits(fs@, RoleSpec::ViewProofSort);
        lemma_first_with_fits(fs@, RoleSpec::PNil);
        if w.proof_sort is Some {
            lemma_first_with_fits(fs@, RoleSpec::Fiat(w.proof_sort->0@));
            lemma_first_with_fits(fs@, RoleSpec::Rule(w.proof_sort->0@));
        }
        assert forall|t: Seq<char>| #[trigger]
            lookup_index(w.view_tables@, t) matches Some(i) ==> 0 <= i < fs@.len()
                && opt_text(fs@[i].term_constructor) == Some(t) by {
            lemma_last_constructor_upto(fs@, t, fs@.len() as int);
        }
        assert forall|s: Seq<char>| #[trigger]
            lookup_index(w.to_ast@, s) matches Some(i) ==> 0 <= i < fs@.len()
                && fs@[i].inputs@.len() == 1 && fs@[i].inputs@[0]@ == s && has_substring(
                fs@[i].name@,
                "Ast"@ + s,
            ) by {
            lemma_first_with_fits(fs@, RoleSpec::ToAst(s));
        }
        assert forall|s: Seq<char>| #[trigger]
            lookup_index(w.term_proof@, s) matches Some(i) ==> 0 <= i < fs@.len()
                && fs@[i].inputs@.len() == 1 && fs@[i].inputs@[0]@ == s && has_substring(
                fs@[i].name@,
                s + "Proof"@,
            ) && !has_substring(fs@[i].name@, "ViewProof"@)
                && opt_text(w.proof_sort) == Some(fs@[i].output@) by {
            lemma_first_with_fits(fs@, RoleSpec::TermProof(s, w.proof_sort->0@));
        }
        assert forall|t: Seq<char>| #[trigger]
            lookup_index(w.view_proof@, t) matches Some(i) ==> 0 <= i < fs@.len()
                && has_substring(fs@[i].name@, t + "ViewProof"@)
                && opt_text(w.proof_sort) == Some(fs@[i].output@)
                && fs@[i].inputs@.len() == view_proof_arity(fs@, t) by {
            lemma_first_with_fits(
                fs@,
                RoleSpec::ViewProof(t, w.proof_sort->0@, view_proof_arity(fs@, t)),
            );
        }
    }
    w
}

/// The action of a Rust-written rule: a call of its primitive `prim` on
/// the rule's variables, in order.
pub fn rust_rule_head(prim: &str, vars: &Vec<String>) -> (r: Expr)
    ensures
        match r {
            Expr::Call(f, args) => f@ == prim@ && args@.len() == vars@.len() && forall|i: int|
                0 <= i < vars@.len() ==> match #[trigger] args@[i] {
                    Expr::Var(v) => v@ == vars@[i]@,
                    _ => false,
                },
            _ => false,
        },
{
    let mut args: Vec<Expr> = Vec::new();
    let mut i: usize = 0;
    while i < vars.len()
        invariant
            i <= vars@.len(),
            args@.len() == i,
            forall|j: int|
                0 <= j < i ==> match #[trigger] args@[j] {
                    Expr::Var(v) => v@ == vars@[j]@,
                    _ => false,
                },
        decreases vars.len() - i,
    {
        args.push(var(vars[i].as_str()));
        i = i + 1;
    }
    call(prim, args)
}

} // verus!
