//! Path text: the operations on path strings that need no filesystem.
//!
//! A path is modelled as the sequence of its characters. The functions here
//! decide whether a path is absolute, join a path onto a base directory and
//! order paths lexicographically.

use vstd::prelude::*;
use vstd::relations::*;
use vstd::string::*;

verus! {

/// The views of a list of strings.
pub open spec fn texts(strings: Seq<String>) -> Seq<Seq<char>> {
    Seq::new(strings.len(), |i: int| strings[i]@)
}

/// The view of a string that may be absent.
pub open spec fn option_text(string: Option<String>) -> Option<Seq<char>> {
    match string {
        Some(s) => Some(s@),
        None => None,
    }
}

/// The character that separates the components of a path.
pub open spec fn separator() -> char {
    '/'
}

/// The character that begins a home-directory shorthand.
pub open spec fn tilde() -> char {
    '~'
}

/// A path is absolute when it begins at the root.
pub open spec fn spec_is_absolute(path: Seq<char>) -> bool {
    path.len() > 0 && path[0] == separator()
}

/// A path is a home-directory shorthand when it begins with a tilde.
pub open spec fn spec_has_tilde(path: Seq<char>) -> bool {
    path.len() > 0 && path[0] == tilde()
}

/// A tilde followed by a separator: the shorthand for the current user's home.
pub open spec fn spec_is_home_relative(path: Seq<char>) -> bool {
    path.len() > 1 && path[0] == tilde() && path[1] == separator()
}

/// `path` taken relative to `dir`: an absolute `path` stands for itself;
/// otherwise it is appended to `dir`, with one separator between the two
/// unless `dir` is empty or already ends in one.
pub open spec fn spec_join(dir: Seq<char>, path: Seq<char>) -> Seq<char> {
    if spec_is_absolute(path) {
        path
    } else if dir.len() > 0 && dir.last() != separator() {
        dir.push(separator()) + path
    } else {
        dir + path
    }
}

/// Lexicographic order on the characters of `a` and `b` from position `from`
/// on: true when `a` comes before `b` or equals it there.
pub open spec fn precedes_from(a: Seq<char>, b: Seq<char>, from: int) -> bool
    decreases a.len() - from,
{
    if from < 0 || from >= a.len() {
        true
    } else if from >= b.len() {
        false
    } else if a[from] != b[from] {
        (a[from] as int) < (b[from] as int)
    } else {
        precedes_from(a, b, from + 1)
    }
}

/// Lexicographic order on paths, character by character: `a` comes before
/// `b` or equals it.
pub open spec fn spec_precedes(a: Seq<char>, b: Seq<char>) -> bool {
    precedes_from(a, b, 0)
}

/// The order in which directory entries are enumerated.
pub open spec fn path_order() -> spec_fn(Seq<char>, Seq<char>) -> bool {
    |a: Seq<char>, b: Seq<char>| spec_precedes(a, b)
}

proof fn lemma_precedes_reflexive(a: Seq<char>, from: int)
    requires
        0 <= from,
    ensures
        precedes_from(a, a, from),
    decreases a.len() - from,
{
    if from < a.len() {
        lemma_precedes_reflexive(a, from + 1);
    }
}

proof fn lemma_precedes_total(a: Seq<char>, b: Seq<char>, from: int)
    requires
        0 <= from,
    ensures
        precedes_from(a, b, from) || precedes_from(b, a, from),
    decreases a.len() - from,
{
    if from < a.len() && from < b.len() && a[from] == b[from] {
        lemma_precedes_total(a, b, from + 1);
    }
}

proof fn lemma_precedes_transitive(a: Seq<char>, b: Seq<char>, c: Seq<char>, from: int)
    requires
        0 <= from,
        precedes_from(a, b, from),
        precedes_from(b, c, from),
    ensures
        precedes_from(a, c, from),
    decreases a.len() - from,
{
    if from < a.len() && from < b.len() && from < c.len() && a[from] == b[from] && b[from]
        == c[from] {
        lemma_precedes_transitive(a, b, c, from + 1);
    }
}

proof fn lemma_precedes_antisymmetric(a: Seq<char>, b: Seq<char>, from: int)
    requires
        0 <= from <= a.len(),
        from <= b.len(),
        precedes_from(a, b, from),
        precedes_from(b, a, from),
    ensures
        a.len() == b.len(),
        forall|i: int| from <= i < a.len() ==> a[i] == b[i],
    decreases a.len() - from,
{
    if from < a.len() {
        lemma_precedes_antisymmetric(a, b, from + 1);
    }
}

/// The lexicographic order on paths is a total order: reflexive,
/// antisymmetric, transitive, and any two paths are comparable.
pub proof fn lemma_path_order_total()
    ensures
        total_ordering(path_order()),
{
    let r = path_order();
    assert forall|a: Seq<char>| #[trigger] r(a, a) by {
        lemma_precedes_reflexive(a, 0);
    }
    assert forall|a: Seq<char>, b: Seq<char>| #[trigger] r(a, b) && #[trigger] r(b, a) implies a
        == b by {
        lemma_precedes_antisymmetric(a, b, 0);
        assert(a =~= b);
    }
    assert forall|a: Seq<char>, b: Seq<char>, c: Seq<char>| #[trigger] r(a, b) && #[trigger] r(
        b,
        c,
    ) implies r(a, c) by {
        lemma_precedes_transitive(a, b, c, 0);
    }
    assert forall|a: Seq<char>, b: Seq<char>| #[trigger] r(a, b) || #[trigger] r(b, a) by {
        lemma_precedes_total(a, b, 0);
    }
}

/// Past a common prefix, two paths compare as what follows the prefix does.
proof fn lemma_precedes_shift(prefix: Seq<char>, a: Seq<char>, b: Seq<char>, from: int)
    requires
        0 <= from,
    ensures
        precedes_from(prefix + a, prefix + b, prefix.len() + from) == precedes_from(a, b, from),
    decreases a.len() - from,
{
    if from < a.len() && from < b.len() {
        assert((prefix + a)[prefix.len() + from] == a[from]);
        assert((prefix + b)[prefix.len() + from] == b[from]);
        if a[from] == b[from] {
            lemma_precedes_shift(prefix, a, b, from + 1);
        }
    }
}

/// Within a common prefix, two paths compare as they do behind it.
proof fn lemma_precedes_skip(prefix: Seq<char>, a: Seq<char>, b: Seq<char>, from: int)
    requires
        0 <= from <= prefix.len(),
    ensures
        precedes_from(prefix + a, prefix + b, from) == precedes_from(
            prefix + a,
            prefix + b,
            prefix.len() as int,
        ),
    decreases prefix.len() - from,
{
    if from < prefix.len() {
        assert((prefix + a)[from] == prefix[from]);
        assert((prefix + b)[from] == prefix[from]);
        lemma_precedes_skip(prefix, a, b, from + 1);
    }
}

/// The entries of one directory are ordered by their names: two paths with
/// a common prefix compare as what follows the prefix.
pub proof fn lemma_order_by_name(prefix: Seq<char>, a: Seq<char>, b: Seq<char>)
    ensures
        spec_precedes(prefix + a, prefix + b) == spec_precedes(a, b),
{
    lemma_precedes_skip(prefix, a, b, 0);
    lemma_precedes_shift(prefix, a, b, 0);
}

/// Whether `path` begins at the root.
pub fn is_absolute(path: &str) -> (absolute: bool)
    ensures
        absolute == spec_is_absolute(path@),
{
    path.unicode_len() > 0 && path.get_char(0) == '/'
}

/// Whether `path` begins with a tilde.
pub fn has_tilde(path: &str) -> (shorthand: bool)
    ensures
        shorthand == spec_has_tilde(path@),
{
    path.unicode_len() > 0 && path.get_char(0) == '~'
}

/// Joins `path` onto the base directory `dir`.
pub fn join_path(dir: &str, path: &str) -> (joined: String)
    ensures
        joined@ == spec_join(dir@, path@),
{
    if is_absolute(path) {
        return path.to_owned();
    }
    let n = dir.unicode_len();
    let mut joined = dir.to_owned();
    if n > 0 && dir.get_char(n - 1) != '/' {
        proof {
            reveal_strlit("/");
            assert("/"@ =~= seq![separator()]);
            assert(dir@ + seq![separator()] =~= dir@.push(separator()));
        }
        joined.append("/");
    }
    joined.append(path);
    joined
}

/// Whether `a` comes before `b`, or equals it, in lexicographic order.
pub fn precedes(a: &str, b: &str) -> (before: bool)
    ensures
        before == spec_precedes(a@, b@),
{
    let la = a.unicode_len();
    let lb = b.unicode_len();
    let mut i: usize = 0;
    while i < la && i < lb
        invariant
            la == a@.len(),
            lb == b@.len(),
            i <= la,
            i <= lb,
            spec_precedes(a@, b@) == precedes_from(a@, b@, i as int),
        decreases la - i,
    {
        let x = a.get_char(i);
        let y = b.get_char(i);
        if x != y {
            return x < y;
        }
        i = i + 1;
    }
    i >= la
}

/// A copy of a list of strings.
pub fn clone_texts(strings: &Vec<String>) -> (copy: Vec<String>)
    ensures
        texts(copy@) == texts(strings@),
{
    let mut copy: Vec<String> = Vec::new();
    let mut i: usize = 0;
    while i < strings.len()
        invariant
            i <= strings.len(),
            copy.len() == i,
            forall|j: int| 0 <= j < i ==> copy@[j]@ == strings@[j]@,
        decreases strings.len() - i,
    {
        copy.push(strings[i].clone());
        i = i + 1;
    }
    assert(texts(copy@) =~= texts(strings@));
    copy
}

} // verus!
