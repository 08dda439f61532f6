//! The variable pass. Rendered HTML may carry placeholders of the form
//! `@@NAME:ARGUMENTS@@`; a match runs from a `@@` opener to the last
//! `@@` close on the same line with a non-empty interior. The one
//! recognized name is `XREFLINK`, whose argument is resolved against the
//! site's cross-reference index.

use vstd::prelude::*;

verus! {

use crate::document::NameView;
use crate::document::spec_folder_path;
use crate::error::Error;
use crate::strutil::first_index_of;
use crate::strutil::lemma_first_index_of;
use crate::strutil::str_eq;
use crate::strutil::substr_string;
use crate::xref::XrefIndex;
use vstd::string::StrSliceExecFns;
use vstd::string::StringExecFns;

/// The mathematical value of one found placeholder.
#[verifier::ext_equal]
pub ghost struct VarView {
    pub full: Seq<char>,
    pub name: Seq<char>,
    pub arguments: Option<Seq<char>>,
}

/// One placeholder found in content: the whole match, the variable name
/// before the first `:`, and the arguments after it.
#[derive(Debug)]
pub struct Variable {
    pub full: String,
    pub name: String,
    pub arguments: Option<String>,
}

impl View for Variable {
    type V = VarView;

    open spec fn view(&self) -> VarView {
        VarView {
            full: self.full@,
            name: self.name@,
            arguments: crate::document::opt_view(self.arguments),
        }
    }
}

/// The views of a sequence of variables.
pub open spec fn var_views(s: Seq<Variable>) -> Seq<VarView> {
    s.map_values(|x: Variable| x@)
}

/// Whether positions `i`, `i + 1` hold the opener `@@`.
pub open spec fn is_opener(s: Seq<char>, i: int) -> bool {
    0 <= i && i + 1 < s.len() && s[i] == '@' && s[i + 1] == '@'
}

/// Whether positions `k`, `k + 1` hold `@@`.
pub open spec fn is_pair(s: Seq<char>, k: int) -> bool {
    0 <= k && k + 1 < s.len() && s[k] == '@' && s[k + 1] == '@'
}

/// The position of the first newline at or after `from`, or the length.
pub open spec fn line_end(s: Seq<char>, from: int) -> int
    decreases s.len() - from,
{
    if from < 0 || from >= s.len() {
        s.len() as int
    } else if s[from] == '\n' {
        from
    } else {
        line_end(s, from + 1)
    }
}

pub proof fn lemma_line_end(s: Seq<char>, from: int)
    requires
        0 <= from <= s.len(),
    ensures
        from <= line_end(s, from) <= s.len(),
        line_end(s, from) < s.len() ==> s[line_end(s, from)] == '\n',
        forall|j: int| from <= j < line_end(s, from) ==> s[j] != '\n',
    decreases s.len() - from,
{
    if from < s.len() && s[from] != '\n' {
        lemma_line_end(s, from + 1);
    }
}

/// The greatest `k` with `lo <= k`, `k + 1 < hi` and `@@` at `k`, if
/// any.
pub open spec fn last_pair_before(s: Seq<char>, lo: int, hi: int) -> Option<int>
    decreases hi,
{
    if !(0 <= lo && lo + 1 < hi && hi <= s.len()) {
        None
    } else if s[hi - 2] == '@' && s[hi - 1] == '@' {
        Some(hi - 2)
    } else {
        last_pair_before(s, lo, hi - 1)
    }
}

pub proof fn lemma_last_pair_before(s: Seq<char>, lo: int, hi: int)
    requires
        0 <= lo,
        hi <= s.len(),
    ensures
        match last_pair_before(s, lo, hi) {
            None => forall|k: int| lo <= k && k + 1 < hi ==> !(s[k] == '@' && s[#[trigger] (k + 1)]
                == '@'),
            Some(k) => lo <= k && k + 1 < hi && s[k] == '@' && s[k + 1] == '@' && (forall|k2: int|
                k < k2 && k2 + 1 < hi ==> !(s[k2] == '@' && s[#[trigger] (k2 + 1)] == '@')),
        },
    decreases hi,
{
    if 0 <= lo && lo + 1 < hi && hi <= s.len() {
        if !(s[hi - 2] == '@' && s[hi - 1] == '@') {
            lemma_last_pair_before(s, lo, hi - 1);
        }
    }
}

/// The greedy close of an opener at `i`: the last `@@` on the same line
/// leaving a non-empty interior, if any.
pub open spec fn match_at(s: Seq<char>, i: int) -> Option<int> {
    if !is_opener(s, i) {
        None
    } else {
        last_pair_before(s, i + 3, line_end(s, i + 2))
    }
}

pub proof fn lemma_match_at(s: Seq<char>, i: int)
    requires
        0 <= i,
        i + 1 < s.len(),
    ensures
        match match_at(s, i) {
            None => true,
            Some(k) => i + 3 <= k && k + 2 <= s.len() && s[k] == '@' && s[k + 1] == '@',
        },
{
    if is_opener(s, i) {
        lemma_line_end(s, i + 2);
        lemma_last_pair_before(s, i + 3, line_end(s, i + 2));
    }
}

/// The placeholder whose match spans `[i, k + 2)`.
pub open spec fn var_at(s: Seq<char>, i: int, k: int) -> VarView {
    let raw = s.subrange(i + 2, k);
    match first_index_of(raw, ':') {
        None => VarView { full: s.subrange(i, k + 2), name: raw, arguments: None },
        Some(p) => VarView {
            full: s.subrange(i, k + 2),
            name: raw.take(p),
            arguments: Some(raw.skip(p + 1)),
        },
    }
}

/// All placeholders of `s` from position `i` on, scanning left to right
/// and continuing after each match.
pub open spec fn spec_scan(s: Seq<char>, i: int) -> Seq<VarView>
    decreases s.len() - i,
    via spec_scan_decreases
{
    if i < 0 || i + 1 >= s.len() {
        Seq::empty()
    } else {
        match match_at(s, i) {
            None => spec_scan(s, i + 1),
            Some(k) => seq![var_at(s, i, k)] + spec_scan(s, k + 2),
        }
    }
}

#[via_fn]
proof fn spec_scan_decreases(s: Seq<char>, i: int) {
    if 0 <= i && i + 1 < s.len() {
        lemma_match_at(s, i);
    }
}

/// The exec mirror of `match_at`.
fn match_close(s: &str, n: usize, i: usize) -> (r: Option<usize>)
    requires
        n == s@.len(),
        i + 1 < n,
    ensures
        match r {
            None => match_at(s@, i as int) is None,
            Some(k) => match_at(s@, i as int) == Some(k as int) && i + 3 <= k && k + 2 <= n,
        },
{
    if !(s.get_char(i) == '@' && s.get_char(i + 1) == '@') {
        return None;
    }
    // find the end of the line
    let mut le: usize = i + 2;
    while le < n && s.get_char(le) != '\n'
        invariant
            i + 2 <= le <= n,
            n == s@.len(),
            forall|j: int| i + 2 <= j < le ==> s@[j] != '\n',
        decreases n - le,
    {
        le += 1;
    }
    proof {
        lemma_line_end(s@, i + 2);
        assert(line_end(s@, i + 2) == le as int) by {
            if line_end(s@, i + 2) < le as int {
                assert(s@[line_end(s@, i + 2)] == '\n');
            }
            if line_end(s@, i + 2) > le as int {
                assert((le as int) < s@.len());
                assert(s@[le as int] == '\n');
                assert(s@[le as int] != '\n');
            }
        }
    }
    // find the last pair before the end of the line
    if le - i < 5 {
        proof {
            assert(last_pair_before(s@, i + 3, le as int) is None);
        }
        return None;
    }
    let mut hi: usize = le;
    while hi - i >= 5
        invariant
            i + 4 <= hi <= le,
            n == s@.len(),
            le <= n,
            is_opener(s@, i as int),
            line_end(s@, i + 2) == le as int,
            last_pair_before(s@, i + 3, le as int) == last_pair_before(s@, i + 3, hi as int),
        decreases hi,
    {
        if s.get_char(hi - 2) == '@' && s.get_char(hi - 1) == '@' {
            proof {
                assert(last_pair_before(s@, i + 3, hi as int) == Some((hi - 2) as int));
            }
            return Some(hi - 2);
        }
        hi -= 1;
    }
    proof {
        assert(last_pair_before(s@, i + 3, hi as int) is None);
    }
    None
}

/// Finds every placeholder of the content, left to right.
pub fn search(content: &str) -> (r: Result<Vec<Variable>, Error>)
    ensures
        match r {
            Ok(vars) => var_views(vars@) == spec_scan(content@, 0),
            Err(_) => false,
        },
{
    broadcast use lemma_var_views_push;

    let n = content.unicode_len();
    let mut vars: Vec<Variable> = Vec::new();
    let mut i: usize = 0;
    proof {
        assert(var_views(vars@) =~= Seq::<VarView>::empty());
    }
    while i < n && i + 1 < n
        invariant
            i <= n,
            n == content@.len(),
            spec_scan(content@, 0) == var_views(vars@) + spec_scan(content@, i as int),
        decreases n - i,
    {
        match match_close(content, n, i) {
            None => {
                proof {
                    assert(spec_scan(content@, i as int) == spec_scan(content@, i + 1));
                }
                i += 1;
            },
            Some(k) => {
                let v = extract_variable(content, n, i, k);
                vars.push(v);
                proof {
                    assert(var_views(vars@) + spec_scan(content@, k + 2) =~= var_views(
                        vars@.drop_last(),
                    ) + (seq![var_at(content@, i as int, k as int)] + spec_scan(content@, k + 2)));
                }
                i = k + 2;
            },
        }
    }
    proof {
        assert(spec_scan(content@, i as int) =~= Seq::<VarView>::empty());
        assert(var_views(vars@) =~= var_views(vars@) + spec_scan(content@, i as int));
    }
    Ok(vars)
}

pub broadcast proof fn lemma_var_views_push(s: Seq<Variable>, x: Variable)
    ensures
        #[trigger] var_views(s.push(x)) =~= var_views(s).push(x@),
{
    assert forall|i: int| 0 <= i < s.len() + 1 implies var_views(s.push(x))[i] == var_views(
        s,
    ).push(x@)[i] by {
        if i < s.len() {
            assert(s.push(x)[i] == s[i]);
        } else {
            assert(s.push(x)[i] == x);
        }
    }
}

/// Builds the `Variable` for the match spanning `[i, k + 2)`.
fn extract_variable(content: &str, n: usize, i: usize, k: usize) -> (r: Variable)
    requires
        n == content@.len(),
        i + 3 <= k,
        k + 2 <= n,
    ensures
        r@ == var_at(content@, i as int, k as int),
{
    let raw = substr_string(content, i + 2, k);
    let full = substr_string(content, i, k + 2);
    match crate::strutil::find_char(raw.as_str(), ':') {
        None => {
            let r = Variable { full, name: raw, arguments: None };
            proof {
                assert(r@ =~~= var_at(content@, i as int, k as int));
            }
            r
        },
        Some(p) => {
            proof {
                lemma_first_index_of(raw@, ':');
            }
            let rn = raw.as_str().unicode_len();
            let name = substr_string(raw.as_str(), 0, p);
            let args = substr_string(raw.as_str(), p + 1, rn);
            let r = Variable { full, name, arguments: Some(args) };
            proof {
                assert(name@ =~= raw@.take(p as int));
                assert(args@ =~= raw@.skip(p as int + 1));
                assert(r@ =~~= var_at(content@, i as int, k as int));
            }
            r
        },
    }
}

/// A successful result prefixed by already emitted output.
pub open spec fn prepended(out: Seq<char>, r: Result<Seq<char>, Error>) -> Result<
    Seq<char>,
    Error,
> {
    match r {
        Ok(t) => Ok(out + t),
        Err(e) => Err(e),
    }
}

/// The variable pass over `s` from position `i` on: kept characters are
/// emitted unchanged; each match must be an `XREFLINK` with an argument
/// bound in the index and is replaced by the base URL, the target's
/// folder path, and a trailing `/`.
pub open spec fn spec_resolve(
    s: Seq<char>,
    i: int,
    base: Seq<char>,
    m: Map<Seq<char>, NameView>,
) -> Result<Seq<char>, Error>
    decreases s.len() - i,
    via spec_resolve_decreases
{
    if i < 0 || i >= s.len() {
        Ok(Seq::empty())
    } else if i + 1 >= s.len() {
        Ok(s.skip(i))
    } else {
        match match_at(s, i) {
            None => prepended(seq![s[i]], spec_resolve(s, i + 1, base, m)),
            Some(k) => {
                let v = var_at(s, i, k);
                if v.name != "XREFLINK"@ {
                    Err(Error::UnsupportedVariable)
                } else {
                    match v.arguments {
                        None => Err(Error::UnsupportedVariable),
                        Some(arg) => if !m.contains_key(arg) {
                            Err(Error::UnresolvedXreflink)
                        } else {
                            prepended(
                                base + spec_folder_path(m[arg]) + seq!['/'],
                                spec_resolve(s, k + 2, base, m),
                            )
                        },
                    }
                }
            },
        }
    }
}

#[via_fn]
proof fn spec_resolve_decreases(s: Seq<char>, i: int, base: Seq<char>, m: Map<Seq<char>, NameView>) {
    if 0 <= i && i + 1 < s.len() {
        lemma_match_at(s, i);
    }
}

/// Replaces every placeholder of `content` as `spec_resolve` describes:
/// each match must be an `XREFLINK:path` whose path the index binds,
/// and becomes `base_url` + the target's folder path + `/`.
pub fn resolve_content(content: &str, base_url: &str, xrefs: &XrefIndex) -> (r: Result<
    String,
    Error,
>)
    ensures
        match r {
            Ok(out) => spec_resolve(content@, 0, base_url@, xrefs@) == Ok::<Seq<char>, Error>(
                out@,
            ),
            Err(e) => spec_resolve(content@, 0, base_url@, xrefs@) == Err::<Seq<char>, Error>(e),
        },
{
    let ghost s = content@;
    let ghost b = base_url@;
    let ghost m = xrefs@;
    let n = content.unicode_len();
    let mut out = String::new();
    let mut i: usize = 0;
    proof {
        if spec_resolve(s, 0, b, m) is Ok {
            assert(out@ + spec_resolve(s, 0, b, m)->Ok_0 =~= spec_resolve(s, 0, b, m)->Ok_0);
        }
    }
    while i < n && i + 1 < n
        invariant
            i <= n,
            n == content@.len(),
            s == content@,
            b == base_url@,
            m == xrefs@,
            spec_resolve(s, 0, b, m) == prepended(out@, spec_resolve(s, i as int, b, m)),
        decreases n - i,
    {
        let ghost i0 = i as int;
        match match_close(content, n, i) {
            None => {
                let c = content.substring_char(i, i + 1);
                proof {
                    assert(c@ =~= seq![s[i0]]);
                }
                let ghost out0 = out@;
                out.append(c);
                proof {
                    assert(out@ =~= out0 + seq![s[i0]]);
                    assert(spec_resolve(s, i0, b, m) == prepended(
                        seq![s[i0]],
                        spec_resolve(s, i0 + 1, b, m),
                    ));
                    lemma_prepend_assoc(out0, seq![s[i0]], spec_resolve(s, i0 + 1, b, m));
                }
                i += 1;
            },
            Some(k) => {
                let v = extract_variable(content, n, i, k);
                if !str_eq(v.name.as_str(), "XREFLINK") {
                    proof {
                        assert(spec_resolve(s, i0, b, m) == Err::<Seq<char>, Error>(
                            Error::UnsupportedVariable,
                        ));
                    }
                    return Err(Error::UnsupportedVariable);
                }
                let arg = match v.arguments {
                    Some(arg) => arg,
                    None => {
                        proof {
                            assert(spec_resolve(s, i0, b, m) == Err::<Seq<char>, Error>(
                                Error::UnsupportedVariable,
                            ));
                        }
                        return Err(Error::UnsupportedVariable);
                    },
                };
                let target = match xrefs.lookup(arg.as_str()) {
                    Some(target) => target,
                    None => {
                        proof {
                            assert(spec_resolve(s, i0, b, m) == Err::<Seq<char>, Error>(
                                Error::UnresolvedXreflink,
                            ));
                        }
                        return Err(Error::UnresolvedXreflink);
                    },
                };
                let folder = target.folder_path();
                let ghost out0 = out@;
                let ghost repl = b + spec_folder_path(m[arg@]) + seq!['/'];
                out.append(base_url);
                out.append(folder.as_str());
                out.append("/");
                proof {
                    reveal_strlit("/");
                    assert(("/")@ =~= seq!['/']);
                    assert(out@ =~= out0 + repl);
                    assert(spec_resolve(s, i0, b, m) == prepended(
                        repl,
                        spec_resolve(s, k + 2, b, m),
                    ));
                    lemma_prepend_assoc(out0, repl, spec_resolve(s, k + 2, b, m));
                }
                i = k + 2;
            },
        }
    }
    if i < n {
        // a single character remains on the content's last position
        let tail = content.substring_char(i, n);
        proof {
            assert(tail@ =~= s.skip(i as int));
            assert(spec_resolve(s, i as int, b, m) == Ok::<Seq<char>, Error>(s.skip(i as int)));
        }
        let ghost out_pre = out@;
        out.append(tail);
        proof {
            assert(out@ =~= out_pre + s.skip(i as int));
        }
        Ok(out)
    } else {
        proof {
            assert(spec_resolve(s, i as int, b, m) == Ok::<Seq<char>, Error>(Seq::empty()));
            assert(out@ + Seq::<char>::empty() =~= out@);
        }
        Ok(out)
    }
}

/// Prefixing is associative with concatenation.
pub proof fn lemma_prepend_assoc(a: Seq<char>, c: Seq<char>, r: Result<Seq<char>, Error>)
    ensures
        prepended(a, prepended(c, r)) == prepended(a + c, r),
{
    if r is Ok {
        assert(a + (c + r->Ok_0) =~= (a + c) + r->Ok_0);
    }
}


/// No newline among positions `[a, b)` of `u`.
pub open spec fn nl_free(u: Seq<char>, a: int, b: int) -> bool {
    forall|j: int| a <= j < b ==> u[j] != '\n'
}

/// Neither `@` nor a newline anywhere in `u`: what a resolved
/// replacement is made of.
pub open spec fn clean_seq(u: Seq<char>) -> bool {
    forall|j: int| 0 <= j < u.len() ==> u[j] != '@' && u[j] != '\n'
}

/// Whether `t` still holds something the scanner would match: an
/// opener pair and a close pair at least three positions later with no
/// newline in between.
pub open spec fn has_residual(t: Seq<char>) -> bool {
    exists|a: int, b: int| is_pair(t, a) && is_pair(t, b) && b >= a + 3 && nl_free(t, a, b)
}

/// The smaller of `k` and three.
pub open spec fn min3(k: int) -> int {
    if k >= 3 {
        3
    } else {
        k
    }
}

/// Every pair of `t` on its first line traces back to a pair of the
/// source at least as far from `i` as the pair is from `t`'s start
/// (capped at three), on the same line.
pub open spec fn pairs_trace_source(s: Seq<char>, i: int, t: Seq<char>) -> bool {
    forall|k: int| #[trigger] is_pair(t, k) && nl_free(t, 0, k) ==> exists|q: int|
        q >= i + min3(k) && is_pair(s, q) && nl_free(s, i, q)
}

/// The shape of a successful resolution: no residual match, its pairs
/// trace to source pairs, and it can only start with `@` where the
/// source did.
pub proof fn lemma_resolve_shape(s: Seq<char>, i: int, base: Seq<char>, m: Map<Seq<char>, NameView>)
    requires
        0 <= i,
        clean_seq(base),
        forall|key: Seq<char>| #[trigger] m.contains_key(key) ==> clean_seq(
            spec_folder_path(m[key]),
        ),
    ensures
        match spec_resolve(s, i, base, m) {
            Ok(t) => !has_residual(t) && pairs_trace_source(s, i, t) && (t.len() > 0 && t[0] == '@'
                ==> i < s.len() && s[i] == '@'),
            Err(_) => true,
        },
    decreases s.len() - i,
{
    if i >= s.len() {
        let t = Seq::<char>::empty();
        assert(!has_residual(t)) by {
            if has_residual(t) {
                let (a, b) = choose|a: int, b: int|
                    is_pair(t, a) && is_pair(t, b) && b >= a + 3 && nl_free(t, a, b);
                assert(!is_pair(t, a));
            }
        }
        assert(pairs_trace_source(s, i, t)) by {
            assert forall|k: int| #[trigger] is_pair(t, k) && nl_free(t, 0, k) implies exists|q: int|
                q >= i + min3(k) && is_pair(s, q) && nl_free(s, i, q) by {
                assert(!is_pair(t, k));
            }
        }
    } else if i + 1 >= s.len() {
        let t = s.skip(i);
        assert(t.len() == 1);
        assert(!has_residual(t)) by {
            if has_residual(t) {
                let (a, b) = choose|a: int, b: int|
                    is_pair(t, a) && is_pair(t, b) && b >= a + 3 && nl_free(t, a, b);
                assert(!is_pair(t, a));
            }
        }
        assert(pairs_trace_source(s, i, t)) by {
            assert forall|k: int| #[trigger] is_pair(t, k) && nl_free(t, 0, k) implies exists|q: int|
                q >= i + min3(k) && is_pair(s, q) && nl_free(s, i, q) by {
                assert(!is_pair(t, k));
            }
        }
        assert(t[0] == s[i]);
    } else {
        lemma_match_at(s, i);
        match match_at(s, i) {
            None => {
                lemma_resolve_shape(s, i + 1, base, m);
                if spec_resolve(s, i + 1, base, m) is Ok {
                    let tp = spec_resolve(s, i + 1, base, m)->Ok_0;
                    let t = seq![s[i]] + tp;
                    assert(spec_resolve(s, i, base, m) == Ok::<Seq<char>, Error>(t));
                    assert(t[0] == s[i]);
                    assert(t.len() == tp.len() + 1);
                    assert forall|j: int| 1 <= j < t.len() implies t[j] == tp[j - 1] by {}
                    // pairs of t trace to source pairs
                    assert forall|k: int| #[trigger] is_pair(t, k) && nl_free(t, 0, k) implies
                        exists|q: int| q >= i + min3(k) && is_pair(s, q) && nl_free(s, i, q) by {
                        if k == 0 {
                            assert(t[0] == '@' && t[1] == '@');
                            assert(tp[0] == '@');
                            assert(s[i + 1] == '@');
                            assert(is_pair(s, i));
                            assert(nl_free(s, i, i));
                            assert(i >= i + min3(0) && is_pair(s, i) && nl_free(s, i, i));
                        } else {
                            assert(is_pair(tp, k - 1)) by {
                                assert(t[k] == tp[k - 1]);
                                assert(t[k + 1] == tp[k]);
                            }
                            assert(nl_free(tp, 0, k - 1)) by {
                                assert forall|j: int| 0 <= j < k - 1 implies tp[j] != '\n' by {
                                    assert(t[j + 1] == tp[j]);
                                }
                            }
                            let q = choose|q: int|
                                q >= (i + 1) + min3(k - 1) && is_pair(s, q) && nl_free(s, i + 1, q);
                            assert(s[i] != '\n') by {
                                if k >= 1 {
                                    assert(t[0] != '\n');
                                }
                            }
                            assert(nl_free(s, i, q));
                            assert(q >= i + min3(k));
                        }
                    }
                    // no residual
                    assert(!has_residual(t)) by {
                        if has_residual(t) {
                            let (a, b) = choose|a: int, b: int|
                                is_pair(t, a) && is_pair(t, b) && b >= a + 3 && nl_free(t, a, b);
                            if a >= 1 {
                                assert(is_pair(tp, a - 1)) by {
                                    assert(t[a] == tp[a - 1]);
                                    assert(t[a + 1] == tp[a]);
                                }
                                assert(is_pair(tp, b - 1)) by {
                                    assert(t[b] == tp[b - 1]);
                                    assert(t[b + 1] == tp[b]);
                                }
                                assert(nl_free(tp, a - 1, b - 1)) by {
                                    assert forall|j: int| a - 1 <= j < b - 1 implies tp[j] != '\n' by {
                                        assert(t[j + 1] == tp[j]);
                                    }
                                }
                                assert(has_residual(tp));
                                assert(false);
                            } else {
                                // an opener at the very start with a close in reach:
                                // the source held a valid close after all
                                assert(t[0] == '@' && t[1] == '@');
                                assert(s[i] == '@');
                                assert(tp[0] == '@');
                                assert(s[i + 1] == '@');
                                assert(is_pair(t, b) && nl_free(t, 0, b));
                                let q = choose|q: int|
                                    q >= i + min3(b) && is_pair(s, q) && nl_free(s, i, q);
                                assert(q >= i + 3);
                                lemma_line_end(s, i + 2);
                                let le = line_end(s, i + 2);
                                assert(q + 1 < le) by {
                                    if le < s.len() {
                                        assert(s[le] == '\n');
                                    }
                                    if le <= q + 1 {
                                        if le == q {
                                            assert(s[q] == '@');
                                            assert(false);
                                        } else if le == q + 1 {
                                            assert(s[q + 1] == '@');
                                            assert(false);
                                        } else {
                                            assert(i + 2 <= le < q);
                                            assert(s[le] != '\n');
                                            assert(false);
                                        }
                                    }
                                }
                                lemma_last_pair_before(s, i + 3, le);
                                assert(last_pair_before(s, i + 3, le) is None);
                                assert(!(s[q] == '@' && s[q + 1] == '@'));
                                assert(false);
                            }
                        }
                    }
                }
            },
            Some(k0) => {
                lemma_resolve_shape(s, k0 + 2, base, m);
                let v = var_at(s, i, k0);
                if v.name == "XREFLINK"@ && v.arguments is Some && m.contains_key(
                    v.arguments->Some_0,
                ) && spec_resolve(s, k0 + 2, base, m) is Ok {
                    let arg = v.arguments->Some_0;
                    let folder = spec_folder_path(m[arg]);
                    let repl = base + folder + seq!['/'];
                    let tp = spec_resolve(s, k0 + 2, base, m)->Ok_0;
                    let t = repl + tp;
                    assert(spec_resolve(s, i, base, m) == Ok::<Seq<char>, Error>(t));
                    assert(clean_seq(spec_folder_path(m[arg])));
                    assert forall|j: int| 0 <= j < repl.len() implies repl[j] != '@' && repl[j]
                        != '\n' by {
                        if j < base.len() {
                            assert(repl[j] == base[j]);
                        } else if j < base.len() + folder.len() {
                            assert(repl[j] == folder[j - base.len()]);
                        } else {
                            assert(repl[j] == '/');
                        }
                    }
                    let rl = repl.len() as int;
                    assert(rl >= 1);
                    assert forall|j: int| rl <= j < t.len() implies t[j] == tp[j - rl] by {}
                    assert forall|j: int| 0 <= j < rl implies t[j] == repl[j] by {}
                    // the consumed span sits on one line of the source
                    assert(nl_free(s, i, k0 + 2)) by {
                        lemma_line_end(s, i + 2);
                        lemma_last_pair_before(s, i + 3, line_end(s, i + 2));
                        assert forall|j: int| i <= j < k0 + 2 implies s[j] != '\n' by {
                            if j <= i + 1 {
                                assert(s[j] == '@');
                            } else {
                                assert(i + 2 <= j < line_end(s, i + 2)) by {
                                    assert(k0 + 1 < line_end(s, i + 2));
                                }
                            }
                        }
                    }
                    assert(t.len() > 0 && t[0] == '@' ==> i < s.len() && s[i] == '@') by {
                        if t.len() > 0 && t[0] == '@' {
                            if rl > 0 {
                                assert(t[0] == repl[0]);
                                assert(repl[0] != '@');
                                assert(false);
                            } else {
                                assert(tp[0] == '@');
                            }
                        }
                    }
                    assert forall|k: int| #[trigger] is_pair(t, k) && nl_free(t, 0, k) implies
                        exists|q: int| q >= i + min3(k) && is_pair(s, q) && nl_free(s, i, q) by {
                        // the pair lies past the replacement
                        assert(k >= rl) by {
                            if k < rl - 1 {
                                assert(t[k] == repl[k]);
                                assert(false);
                            } else if k == rl - 1 {
                                assert(t[k] == repl[k]);
                                assert(false);
                            }
                        }
                        assert(is_pair(tp, k - rl)) by {
                            assert(t[k] == tp[k - rl]);
                            assert(t[k + 1] == tp[k + 1 - rl]);
                        }
                        assert(nl_free(tp, 0, k - rl)) by {
                            assert forall|j: int| 0 <= j < k - rl implies tp[j] != '\n' by {
                                assert(t[j + rl] == tp[j]);
                            }
                        }
                        let q = choose|q: int|
                            q >= (k0 + 2) + min3(k - rl) && is_pair(s, q) && nl_free(s, k0 + 2, q);
                        assert(q >= i + min3(k)) by {
                            assert(k0 >= i + 3);
                            assert(min3(k) <= 3);
                        }
                        assert(nl_free(s, i, q));
                    }
                    assert(!has_residual(t)) by {
                        if has_residual(t) {
                            let (a, b) = choose|a: int, b: int|
                                is_pair(t, a) && is_pair(t, b) && b >= a + 3 && nl_free(t, a, b);
                            assert(a >= rl) by {
                                if a < rl - 1 {
                                    assert(t[a] == repl[a]);
                                    assert(false);
                                } else if a == rl - 1 {
                                    assert(t[a] == repl[a]);
                                    assert(false);
                                }
                            }
                            assert(b >= rl);
                            assert(is_pair(tp, a - rl)) by {
                                assert(t[a] == tp[a - rl]);
                                assert(t[a + 1] == tp[a + 1 - rl]);
                            }
                            assert(is_pair(tp, b - rl)) by {
                                assert(t[b] == tp[b - rl]);
                                assert(t[b + 1] == tp[b + 1 - rl]);
                            }
                            assert(nl_free(tp, a - rl, b - rl)) by {
                                assert forall|j: int| a - rl <= j < b - rl implies tp[j] != '\n' by {
                                    assert(t[j + rl] == tp[j]);
                                }
                            }
                            assert(has_residual(tp));
                            assert(false);
                        }
                    }
                }
            },
        }
    }
}

/// The variable pass leaves no resolvable placeholder behind: when the
/// base URL and every bound document's folder path are free of `@` and
/// newlines, a successfully resolved content holds no further match.
pub proof fn lemma_resolve_no_residual(
    s: Seq<char>,
    base: Seq<char>,
    m: Map<Seq<char>, NameView>,
    t: Seq<char>,
)
    requires
        clean_seq(base),
        forall|key: Seq<char>| #[trigger] m.contains_key(key) ==> clean_seq(
            spec_folder_path(m[key]),
        ),
        spec_resolve(s, 0, base, m) == Ok::<Seq<char>, Error>(t),
    ensures
        !has_residual(t),
{
    lemma_resolve_shape(s, 0, base, m);
}

} // verus!
