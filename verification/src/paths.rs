//! Unix paths as text: absoluteness and the number of components, as
//! `std::path::Path` documents them on Unix.

use vstd::prelude::*;
use vstd::string::*;

verus! {

/// On Unix a path is absolute when it begins at the root `/`.
pub open spec fn is_absolute(p: Seq<char>) -> bool {
    p.len() > 0 && p[0] == '/'
}

/// Position `i` of `p` is the last character of a component other than `.`:
/// separators repeat freely and `.` components are normalised away.
pub open spec fn ends_component(p: Seq<char>, i: int) -> bool {
    &&& p[i] != '/'
    &&& i + 1 == p.len() || p[i + 1] == '/'
    &&& !(p[i] == '.' && (i == 0 || p[i - 1] == '/'))
}

/// The number of components other than `.` that end before position `n`.
pub open spec fn components_before(p: Seq<char>, n: int) -> nat
    decreases n,
{
    if n <= 0 {
        0
    } else {
        components_before(p, n - 1) + if ends_component(p, n - 1) {
            1nat
        } else {
            0nat
        }
    }
}

/// The number of components of a path that begins at the root: the root
/// itself, then each non-empty piece between separators other than `.`
/// (so `/a`, `/a/`, `//a` and `/./a` have two, `/a/b` and `/a/..` three).
pub open spec fn rooted_component_count(p: Seq<char>) -> nat {
    1 + components_before(p, p.len() as int)
}

/// Component ends agree on a common prefix of two paths.
proof fn lemma_components_before_agree(p: Seq<char>, q: Seq<char>, n: int)
    requires
        0 <= n,
        forall|i: int| 0 <= i < n ==> ends_component(p, i) == ends_component(q, i),
    ensures
        components_before(p, n) == components_before(q, n),
    decreases n,
{
    if n > 0 {
        lemma_components_before_agree(p, q, n - 1);
    }
}

/// Appending a separator and a one-letter name adds exactly one component,
/// whatever the path; so a path with two names or more below the root is
/// never a direct child of the root.
pub proof fn law_append_adds_one_component(p: Seq<char>, c: char)
    requires
        c != '/',
        c != '.',
    ensures
        rooted_component_count(p + seq!['/', c]) == rooted_component_count(p) + 1,
        rooted_component_count(p) >= 2 ==> rooted_component_count(p + seq!['/', c]) != 2,
{
    let q = p + seq!['/', c];
    let n = p.len() as int;
    assert forall|i: int| 0 <= i < n implies ends_component(p, i) == ends_component(q, i) by {
        assert(q[i] == p[i]);
        if i > 0 {
            assert(q[i - 1] == p[i - 1]);
        }
        if i + 1 < n {
            assert(q[i + 1] == p[i + 1]);
        } else {
            assert(q[i + 1] == '/');
        }
    }
    lemma_components_before_agree(p, q, n);
    assert(!ends_component(q, n));
    assert(ends_component(q, n + 1));
    assert(components_before(q, n + 1) == components_before(q, n));
    assert(components_before(q, n + 2) == components_before(q, n + 1) + 1);
}

/// Extra separators and `.` pieces add no component: appending `/` or `/.`
/// to a path leaves its number of components as it was.
pub proof fn law_separators_and_dots_add_nothing(p: Seq<char>)
    ensures
        rooted_component_count(p + seq!['/']) == rooted_component_count(p),
        rooted_component_count(p + seq!['/', '.']) == rooted_component_count(p),
{
    let n = p.len() as int;
    let q = p + seq!['/'];
    let r = p + seq!['/', '.'];
    assert forall|i: int| 0 <= i < n implies ends_component(p, i) == ends_component(q, i)
        && ends_component(p, i) == ends_component(r, i) by {
        assert(q[i] == p[i] && r[i] == p[i]);
        if i > 0 {
            assert(q[i - 1] == p[i - 1] && r[i - 1] == p[i - 1]);
        }
        if i + 1 < n {
            assert(q[i + 1] == p[i + 1] && r[i + 1] == p[i + 1]);
        } else {
            assert(q[i + 1] == '/' && r[i + 1] == '/');
        }
    }
    lemma_components_before_agree(p, q, n);
    lemma_components_before_agree(p, r, n);
    assert(!ends_component(q, n));
    assert(components_before(q, n + 1) == components_before(q, n));
    assert(!ends_component(r, n));
    assert(!ends_component(r, n + 1));
    assert(components_before(r, n + 1) == components_before(r, n));
    assert(components_before(r, n + 2) == components_before(r, n + 1));
}

/// The root alone has one component, and `/` followed by a plain name two.
pub proof fn law_root_and_child(c: char)
    requires
        c != '/',
        c != '.',
    ensures
        rooted_component_count(seq!['/']) == 1,
        rooted_component_count(seq!['/', c]) == 2,
{
    assert(!ends_component(seq!['/'], 0));
    assert(components_before(seq!['/'], 0) == 0);
    assert(components_before(seq!['/'], 1) == 0);
    law_append_adds_one_component(Seq::empty(), c);
    assert(Seq::<char>::empty() + seq!['/', c] =~= seq!['/', c]);
    assert(components_before(Seq::<char>::empty(), 0) == 0);
}

/// Whether `p` is absolute.
pub fn is_absolute_path(p: &str) -> (r: bool)
    ensures
        r == is_absolute(p@),
{
    let len = p.unicode_len();
    len > 0 && p.get_char(0) == '/'
}

/// Whether the rooted path `p` names a direct child of the root, that is, has
/// exactly two components.
pub fn is_root_child(p: &str) -> (r: bool)
    ensures
        r == (rooted_component_count(p@) == 2),
{
    let len = p.unicode_len();
    let mut count: usize = 0;
    let mut i: usize = 0;
    while i < len
        invariant
            i <= len,
            len == p@.len(),
            count == components_before(p@, i as int),
            count <= i,
        decreases len - i,
    {
        let c = p.get_char(i);
        let last = i + 1 == len || p.get_char(i + 1) == '/';
        let lone_dot = c == '.' && (i == 0 || p.get_char(i - 1) == '/');
        if c != '/' && last && !lone_dot {
            count = count + 1;
        }
        i = i + 1;
    }
    count == 1
}

} // verus!
