//! Verified string helpers: character access, equality, splitting and
//! joining on a separator character, and file-name stem/extension derivation.
//! Paths are plain `/`-separated strings throughout the library, so these
//! helpers carry most of the path arithmetic.

use vstd::prelude::*;

verus! {

use vstd::string::StrSliceExecFns;
use vstd::string::StringExecFns;

/// The views of a sequence of strings.
pub open spec fn views(s: Seq<String>) -> Seq<Seq<char>> {
    s.map_values(|x: String| x@)
}

pub broadcast proof fn lemma_views_index(s: Seq<String>, i: int)
    requires
        0 <= i < s.len(),
    ensures
        #[trigger] views(s)[i] == s[i]@,
{
}

pub broadcast proof fn lemma_views_push(s: Seq<String>, x: String)
    ensures
        #[trigger] views(s.push(x)) =~= views(s).push(x@),
{
    assert forall|i: int| 0 <= i < s.len() + 1 implies views(s.push(x))[i] == views(s).push(x@)[i] by {
        if i < s.len() {
            assert(s.push(x)[i] == s[i]);
        } else {
            assert(s.push(x)[i] == x);
        }
    }
}

/// Index of the first occurrence of `c` in `s`, if any.
pub open spec fn first_index_of(s: Seq<char>, c: char) -> Option<int>
    decreases s.len(),
{
    if s.len() == 0 {
        None
    } else if s[0] == c {
        Some(0int)
    } else {
        match first_index_of(s.drop_first(), c) {
            None => None,
            Some(i) => Some(i + 1),
        }
    }
}

pub proof fn lemma_first_index_of(s: Seq<char>, c: char)
    ensures
        match first_index_of(s, c) {
            None => forall|j: int| 0 <= j < s.len() ==> s[j] != c,
            Some(i) => 0 <= i < s.len() && s[i] == c && (forall|j: int| 0 <= j < i ==> s[j] != c),
        },
    decreases s.len(),
{
    if s.len() > 0 && s[0] != c {
        lemma_first_index_of(s.drop_first(), c);
        assert forall|j: int| 1 <= j < s.len() implies s[j] == s.drop_first()[j - 1] by {}
    }
}

pub proof fn lemma_first_index_of_is(s: Seq<char>, c: char, i: int)
    requires
        0 <= i < s.len(),
        s[i] == c,
        forall|j: int| 0 <= j < i ==> s[j] != c,
    ensures
        first_index_of(s, c) == Some(i),
    decreases s.len(),
{
    if i > 0 {
        assert(s[0] != c);
        assert forall|j: int| 0 <= j < i - 1 implies s.drop_first()[j] != c by {
            assert(s.drop_first()[j] == s[j + 1]);
        }
        assert(s.drop_first()[i - 1] == s[i]);
        lemma_first_index_of_is(s.drop_first(), c, i - 1);
    }
}

pub proof fn lemma_first_index_of_none(s: Seq<char>, c: char)
    requires
        forall|j: int| 0 <= j < s.len() ==> s[j] != c,
    ensures
        first_index_of(s, c) is None,
    decreases s.len(),
{
    if s.len() > 0 {
        assert forall|j: int| 0 <= j < s.drop_first().len() implies s.drop_first()[j] != c by {
            assert(s.drop_first()[j] == s[j + 1]);
        }
        lemma_first_index_of_none(s.drop_first(), c);
    }
}

/// Index of the first string of `s` equal to `target`, if any.
pub open spec fn first_eq_index(s: Seq<Seq<char>>, target: Seq<char>) -> Option<int>
    decreases s.len(),
{
    if s.len() == 0 {
        None
    } else if s[0] == target {
        Some(0int)
    } else {
        match first_eq_index(s.drop_first(), target) {
            None => None,
            Some(i) => Some(i + 1),
        }
    }
}

pub proof fn lemma_first_eq_index(s: Seq<Seq<char>>, target: Seq<char>)
    ensures
        match first_eq_index(s, target) {
            None => forall|j: int| 0 <= j < s.len() ==> s[j] != target,
            Some(i) => 0 <= i < s.len() && s[i] == target && (forall|j: int|
                0 <= j < i ==> s[j] != target),
        },
    decreases s.len(),
{
    if s.len() > 0 && s[0] != target {
        lemma_first_eq_index(s.drop_first(), target);
        assert forall|j: int| 1 <= j < s.len() implies s[j] == s.drop_first()[j - 1] by {}
    }
}

pub proof fn lemma_first_eq_index_is(s: Seq<Seq<char>>, target: Seq<char>, i: int)
    requires
        0 <= i < s.len(),
        s[i] == target,
        forall|j: int| 0 <= j < i ==> s[j] != target,
    ensures
        first_eq_index(s, target) == Some(i),
    decreases s.len(),
{
    if i > 0 {
        assert(s[0] != target);
        assert forall|j: int| 0 <= j < i - 1 implies s.drop_first()[j] != target by {
            assert(s.drop_first()[j] == s[j + 1]);
        }
        assert(s.drop_first()[i - 1] == s[i]);
        lemma_first_eq_index_is(s.drop_first(), target, i - 1);
    }
}

pub proof fn lemma_first_eq_index_none(s: Seq<Seq<char>>, target: Seq<char>)
    requires
        forall|j: int| 0 <= j < s.len() ==> s[j] != target,
    ensures
        first_eq_index(s, target) is None,
    decreases s.len(),
{
    if s.len() > 0 {
        assert forall|j: int| 0 <= j < s.drop_first().len() implies s.drop_first()[j] != target by {
            assert(s.drop_first()[j] == s[j + 1]);
        }
        lemma_first_eq_index_none(s.drop_first(), target);
    }
}

/// The pieces of `s` between occurrences of `sep`. Never empty; separators
/// are not part of any piece; `n` separators give `n + 1` pieces.
pub open spec fn split_on(s: Seq<char>, sep: char) -> Seq<Seq<char>>
    decreases s.len(),
    via split_on_decreases
{
    match first_index_of(s, sep) {
        None => seq![s],
        Some(i) => seq![s.take(i)] + split_on(s.skip(i + 1), sep),
    }
}

#[via_fn]
proof fn split_on_decreases(s: Seq<char>, sep: char) {
    lemma_first_index_of(s, sep);
}

pub proof fn lemma_split_on_len(s: Seq<char>, sep: char)
    ensures
        split_on(s, sep).len() >= 1,
        forall|k: int| 0 <= k < split_on(s, sep).len() ==>
            !(#[trigger] split_on(s, sep)[k]).contains(sep),
    decreases s.len(),
{
    lemma_first_index_of(s, sep);
    match first_index_of(s, sep) {
        None => {
            assert(!s.contains(sep)) by {
                if s.contains(sep) {
                    let j = choose|j: int| 0 <= j < s.len() && s[j] == sep;
                    assert(s[j] != sep);
                }
            }
        },
        Some(i) => {
            lemma_split_on_len(s.skip(i + 1), sep);
            assert(!s.take(i).contains(sep)) by {
                if s.take(i).contains(sep) {
                    let j = choose|j: int| 0 <= j < i && s.take(i)[j] == sep;
                    assert(s[j] != sep);
                }
            }
            assert forall|k: int| 1 <= k < split_on(s, sep).len() implies
                !(#[trigger] split_on(s, sep)[k]).contains(sep) by {
                assert(split_on(s, sep)[k] == split_on(s.skip(i + 1), sep)[k - 1]);
            }
        },
    }
}

/// The pieces joined back with `sep` between them.
pub open spec fn join_with(parts: Seq<Seq<char>>, sep: Seq<char>) -> Seq<char>
    decreases parts.len(),
{
    if parts.len() == 0 {
        Seq::empty()
    } else if parts.len() == 1 {
        parts[0]
    } else {
        parts[0] + sep + join_with(parts.drop_first(), sep)
    }
}

pub proof fn lemma_join_with_push(parts: Seq<Seq<char>>, x: Seq<char>, sep: Seq<char>)
    ensures
        join_with(parts.push(x), sep) == if parts.len() == 0 {
            x
        } else {
            join_with(parts, sep) + sep + x
        },
    decreases parts.len(),
{
    if parts.len() == 0 {
        assert(parts.push(x)[0] == x);
        assert(join_with(parts.push(x), sep) == x);
    } else if parts.len() == 1 {
        assert(parts.push(x).drop_first() =~= seq![x]);
        assert(join_with(seq![x], sep) == x);
        assert(parts.push(x)[0] == parts[0]);
        assert(join_with(parts.push(x), sep) == parts[0] + sep + x);
    } else {
        lemma_join_with_push(parts.drop_first(), x, sep);
        assert(parts.push(x).drop_first() =~= parts.drop_first().push(x));
        assert(join_with(parts.push(x), sep) == parts.push(x)[0] + sep + join_with(
            parts.push(x).drop_first(),
            sep,
        ));
        assert(join_with(parts, sep) + sep + x == parts[0] + sep + (join_with(
            parts.drop_first(),
            sep,
        ) + sep + x));
        assert(parts[0] + sep + (join_with(parts.drop_first(), sep) + sep + x) =~= parts[0] + sep
            + join_with(parts.drop_first(), sep) + sep + x);
        assert(parts[0] + sep + (join_with(parts.drop_first(), sep) + sep + x) == join_with(
            parts.push(x),
            sep,
        ));
    }
}

/// Whether two string slices hold the same characters.
pub fn str_eq(a: &str, b: &str) -> (r: bool)
    ensures
        r == (a@ == b@),
{
    let n = a.unicode_len();
    let m = b.unicode_len();
    if n != m {
        return false;
    }
    let mut i: usize = 0;
    while i < n
        invariant
            i <= n,
            n == a@.len(),
            n == b@.len(),
            forall|j: int| 0 <= j < i ==> a@[j] == b@[j],
        decreases n - i,
    {
        if a.get_char(i) != b.get_char(i) {
            return false;
        }
        i += 1;
    }
    proof {
        assert(a@ =~= b@);
    }
    true
}

/// A freshly owned copy of a character range of `s`.
pub fn substr_string(s: &str, from: usize, to: usize) -> (r: String)
    requires
        from <= to <= s@.len(),
    ensures
        r@ == s@.subrange(from as int, to as int),
{
    s.substring_char(from, to).to_owned()
}

/// Position of the first occurrence of `c` in `s`, if any.
pub fn find_char(s: &str, c: char) -> (r: Option<usize>)
    ensures
        match r {
            None => first_index_of(s@, c) is None,
            Some(i) => first_index_of(s@, c) == Some(i as int),
        },
{
    let n = s.unicode_len();
    let mut i: usize = 0;
    while i < n
        invariant
            i <= n,
            n == s@.len(),
            forall|j: int| 0 <= j < i ==> s@[j] != c,
        decreases n - i,
    {
        if s.get_char(i) == c {
            proof {
                lemma_first_index_of_is(s@, c, i as int);
            }
            return Some(i);
        }
        i += 1;
    }
    proof {
        lemma_first_index_of_none(s@, c);
    }
    None
}

/// The pieces of `s` between occurrences of `sep`, as owned strings.
pub fn split_char(s: &str, sep: char) -> (r: Vec<String>)
    ensures
        views(r@) == split_on(s@, sep),
    decreases s@.len(),
{
    proof {
        lemma_first_index_of(s@, sep);
    }
    match find_char(s, sep) {
        None => {
            let mut v: Vec<String> = Vec::new();
            v.push(s.to_owned());
            proof {
                assert(views(v@) =~= seq![s@]);
            }
            v
        },
        Some(i) => {
            let head = substr_string(s, 0, i);
            let n = s.unicode_len();
            let rest = s.substring_char(i + 1, n);
            let mut v = split_char(rest, sep);
            v.insert(0, head);
            proof {
                assert(head@ =~= s@.take(i as int));
                assert(rest@ =~= s@.skip(i as int + 1));
                assert(views(v@) =~= seq![s@.take(i as int)] + split_on(s@.skip(i as int + 1), sep));
            }
            v
        },
    }
}

/// The strings of `parts` joined with `sep` between them.
pub fn join_strings(parts: &Vec<String>, sep: &str) -> (r: String)
    ensures
        r@ == join_with(views(parts@), sep@),
{
    let mut r = String::new();
    let mut i: usize = 0;
    while i < parts.len()
        invariant
            i <= parts.len(),
            r@ == join_with(views(parts@).take(i as int), sep@),
        decreases parts.len() - i,
    {
        if i > 0 {
            r.append(sep);
        }
        r.append(parts[i].as_str());
        proof {
            lemma_join_with_push(views(parts@).take(i as int), parts@[i as int]@, sep@);
            assert(views(parts@).take(i + 1) =~= views(parts@).take(i as int).push(
                parts@[i as int]@,
            ));
        }
        i += 1;
    }
    proof {
        assert(views(parts@).take(parts@.len() as int) =~= views(parts@));
    }
    r
}

/// The concatenation of two strings.
pub fn concat2(a: &str, b: &str) -> (r: String)
    ensures
        r@ == a@ + b@,
{
    a.to_owned().concat(b)
}

/// The concatenation of three strings.
pub fn concat3(a: &str, b: &str, c: &str) -> (r: String)
    ensures
        r@ == a@ + b@ + c@,
{
    let r = a.to_owned().concat(b).concat(c);
    proof {
        assert(r@ =~= a@ + b@ + c@);
    }
    r
}

/// Index of the last `.` of `s` that does not start it, if any: the point
/// where a file name splits into stem and extension.
pub open spec fn last_dot_index(s: Seq<char>) -> Option<int>
    decreases s.len(),
{
    if s.len() <= 1 {
        None
    } else if s.last() == '.' {
        Some(s.len() - 1)
    } else {
        last_dot_index(s.drop_last())
    }
}

/// The file name without its extension: everything before the last `.`,
/// or all of it when no `.` follows the first character.
pub open spec fn stem_of(s: Seq<char>) -> Seq<char> {
    match last_dot_index(s) {
        None => s,
        Some(i) => s.take(i),
    }
}

/// The extension: everything after the last `.`, when one follows the
/// first character.
pub open spec fn ext_of(s: Seq<char>) -> Option<Seq<char>> {
    match last_dot_index(s) {
        None => None,
        Some(i) => Some(s.skip(i + 1)),
    }
}

pub proof fn lemma_last_dot_index(s: Seq<char>)
    ensures
        match last_dot_index(s) {
            None => forall|j: int| 1 <= j < s.len() ==> s[j] != '.',
            Some(i) => 1 <= i < s.len() && s[i] == '.' && (forall|j: int|
                i < j < s.len() ==> s[j] != '.'),
        },
    decreases s.len(),
{
    if s.len() > 1 && s.last() != '.' {
        lemma_last_dot_index(s.drop_last());
        assert forall|j: int| 1 <= j < s.len() - 1 implies s.drop_last()[j] == s[j] by {}
    }
}

pub proof fn lemma_last_dot_index_is(s: Seq<char>, i: int)
    requires
        1 <= i < s.len(),
        s[i] == '.',
        forall|j: int| i < j < s.len() ==> s[j] != '.',
    ensures
        last_dot_index(s) == Some(i),
    decreases s.len(),
{
    if i < s.len() - 1 {
        assert(s.last() != '.');
        assert forall|j: int| i < j < s.drop_last().len() implies s.drop_last()[j] != '.' by {}
        assert(s.drop_last()[i] == s[i]);
        lemma_last_dot_index_is(s.drop_last(), i);
    }
}

pub proof fn lemma_last_dot_index_none(s: Seq<char>)
    requires
        forall|j: int| 1 <= j < s.len() ==> s[j] != '.',
    ensures
        last_dot_index(s) is None,
    decreases s.len(),
{
    if s.len() > 1 {
        assert(s.last() != '.');
        assert forall|j: int| 1 <= j < s.drop_last().len() implies s.drop_last()[j] != '.' by {}
        lemma_last_dot_index_none(s.drop_last());
    }
}

/// Position of the last `.` of `s` not at its start, if any.
pub fn find_last_dot(s: &str) -> (r: Option<usize>)
    ensures
        match r {
            None => last_dot_index(s@) is None,
            Some(i) => last_dot_index(s@) == Some(i as int),
        },
{
    let n = s.unicode_len();
    let mut i: usize = n;
    while i > 1
        invariant
            i <= n,
            n == s@.len(),
            forall|j: int| i <= j < n ==> s@[j] != '.',
        decreases i,
    {
        i -= 1;
        if s.get_char(i) == '.' {
            proof {
                lemma_last_dot_index_is(s@, i as int);
            }
            return Some(i);
        }
    }
    proof {
        lemma_last_dot_index_none(s@);
    }
    None
}

/// The stem of a file name, before any extension.
pub fn file_stem(s: &str) -> (r: String)
    ensures
        r@ == stem_of(s@),
{
    proof {
        lemma_last_dot_index(s@);
    }
    match find_last_dot(s) {
        None => s.to_owned(),
        Some(i) => {
            let r = substr_string(s, 0, i);
            proof {
                assert(r@ =~= stem_of(s@));
            }
            r
        },
    }
}

/// The extension of a file name, if it has one.
pub fn file_ext(s: &str) -> (r: Option<String>)
    ensures
        match r {
            None => ext_of(s@) is None,
            Some(e) => ext_of(s@) == Some(e@),
        },
{
    proof {
        lemma_last_dot_index(s@);
    }
    match find_last_dot(s) {
        None => None,
        Some(i) => {
            let n = s.unicode_len();
            let e = substr_string(s, i + 1, n);
            proof {
                assert(e@ =~= s@.skip(i as int + 1));
            }
            Some(e)
        },
    }
}

/// The remainder of `path` after removing the leading `prefix`, component
/// wise: the prefix must be the whole path or be followed by a `/`.
pub open spec fn strip_prefix_spec(path: Seq<char>, prefix: Seq<char>) -> Option<Seq<char>> {
    if prefix.len() == 0 {
        Some(path)
    } else if path == prefix {
        Some(Seq::empty())
    } else if path.len() > prefix.len() && path.take(prefix.len() as int) == prefix && path[prefix.len() as int]
        == '/' {
        Some(path.skip(prefix.len() as int + 1))
    } else {
        None
    }
}

/// Strips a leading path prefix, when `path` lies under `prefix`.
pub fn strip_prefix(path: &str, prefix: &str) -> (r: Option<String>)
    ensures
        match r {
            None => strip_prefix_spec(path@, prefix@) is None,
            Some(rest) => strip_prefix_spec(path@, prefix@) == Some(rest@),
        },
{
    let n = path.unicode_len();
    let m = prefix.unicode_len();
    if m == 0 {
        return Some(path.to_owned());
    }
    if n < m {
        return None;
    }
    let head = path.substring_char(0, m);
    if !str_eq(head, prefix) {
        proof {
            assert(path@.take(m as int) == head@);
            if path@ == prefix@ {
                assert(path@.take(m as int) =~= prefix@);
            }
        }
        return None;
    }
    proof {
        assert(path@.take(m as int) == head@);
    }
    if n == m {
        proof {
            assert(path@ =~= prefix@);
        }
        let r = String::new();
        return Some(r);
    }
    if path.get_char(m) == '/' {
        let rest = substr_string(path, m + 1, n);
        proof {
            assert(path@ != prefix@);
            assert(rest@ =~= path@.skip(m as int + 1));
        }
        Some(rest)
    } else {
        proof {
            assert(path@ != prefix@);
        }
        None
    }
}

/// Whether `s` starts with the character `c`.
pub fn starts_with_char(s: &str, c: char) -> (r: bool)
    ensures
        r == (s@.len() > 0 && s@[0] == c),
{
    if s.unicode_len() == 0 {
        false
    } else {
        s.get_char(0) == c
    }
}

/// Whether `s` ends with the character `c`.
pub fn ends_with_char(s: &str, c: char) -> (r: bool)
    ensures
        r == (s@.len() > 0 && s@[s@.len() - 1] == c),
{
    let n = s.unicode_len();
    if n == 0 {
        false
    } else {
        s.get_char(n - 1) == c
    }
}

/// A freshly owned copy of `s` with the same characters and thus the
/// same value.
pub fn clone_string(s: &String) -> (r: String)
    ensures
        r == *s,
{
    s.clone()
}

/// A copy of an optional string.
pub fn clone_opt_string(s: &Option<String>) -> (r: Option<String>)
    ensures
        r == *s,
{
    match s {
        Some(x) => Some(x.clone()),
        None => None,
    }
}

/// An element-wise copy of a vector of strings.
pub fn clone_strings(v: &Vec<String>) -> (r: Vec<String>)
    ensures
        r@ =~= v@,
{
    let mut r: Vec<String> = Vec::new();
    let mut i: usize = 0;
    while i < v.len()
        invariant
            i <= v.len(),
            r@ =~= v@.take(i as int),
        decreases v.len() - i,
    {
        r.push(clone_string(&v[i]));
        proof {
            assert(r@ =~= v@.take(i + 1));
        }
        i += 1;
    }
    r
}

} // verus!
