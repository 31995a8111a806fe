//! Placeholder tokens in a command template: `{name}` where `name` is a
//! letter or `_` followed by letters, digits or `_`.
use vstd::prelude::*;
use crate::queries::string_views;

verus! {

/// A character that may begin a placeholder name.
pub open spec fn is_name_start(c: char) -> bool {
    ('a' <= c && c <= 'z') || ('A' <= c && c <= 'Z') || c == '_'
}

/// A character that may continue a placeholder name.
pub open spec fn is_name_char(c: char) -> bool {
    is_name_start(c) || ('0' <= c && c <= '9')
}

/// A placeholder token of `n` characters starts at position `i` of `s`.
pub open spec fn token_at(s: Seq<char>, i: int, n: int) -> bool {
    &&& 0 <= i
    &&& 3 <= n
    &&& i + n <= s.len()
    &&& s[i] == '{'
    &&& s[i + n - 1] == '}'
    &&& is_name_start(s[i + 1])
    &&& forall|k: int| i + 1 <= k < i + n - 1 ==> is_name_char(#[trigger] s[k])
}

/// The length of the token that starts at `i`, or 0 where none does.
pub open spec fn token_len(s: Seq<char>, i: int) -> int {
    if exists|n: int| token_at(s, i, n) {
        choose|n: int| token_at(s, i, n)
    } else {
        0
    }
}

/// The tokens of `s` from position `i` on, left to right.
pub open spec fn tokens_from(s: Seq<char>, i: int) -> Seq<Seq<char>>
    decreases s.len() - i,
{
    if i >= s.len() {
        Seq::empty()
    } else if token_len(s, i) > 0 {
        seq![s.subrange(i, i + token_len(s, i))] + tokens_from(s, i + token_len(s, i))
    } else {
        tokens_from(s, i + 1)
    }
}

/// `ts` without repeats, each kept where it first occurs.
pub open spec fn distinct(ts: Seq<Seq<char>>) -> Seq<Seq<char>>
    decreases ts.len(),
{
    if ts.len() == 0 {
        ts
    } else {
        let d = distinct(ts.drop_last());
        if d.contains(ts.last()) {
            d
        } else {
            d.push(ts.last())
        }
    }
}

/// The distinct placeholders of a template, in order of first occurrence.
pub open spec fn placeholders(s: Seq<char>) -> Seq<Seq<char>> {
    distinct(tokens_from(s, 0))
}

/// The first position of `t` in `names`.
pub open spec fn first_index(names: Seq<Seq<char>>, t: Seq<char>) -> int {
    choose|k: int| 0 <= k < names.len() && names[k] == t && forall|j: int| 0 <= j < k ==> names[j] != t
}

/// `s` from position `i` on, with each token that `names` holds replaced by
/// the argument at the same position.
pub open spec fn substitute_from(s: Seq<char>, i: int, names: Seq<Seq<char>>, args: Seq<Seq<char>>) -> Seq<char>
    decreases s.len() - i,
{
    if i >= s.len() {
        Seq::empty()
    } else if token_len(s, i) > 0 {
        let t = s.subrange(i, i + token_len(s, i));
        let rest = substitute_from(s, i + token_len(s, i), names, args);
        if names.contains(t) {
            args[first_index(names, t)] + rest
        } else {
            t + rest
        }
    } else {
        seq![s[i]] + substitute_from(s, i + 1, names, args)
    }
}

/// The template with its i-th distinct placeholder replaced by the i-th
/// argument, everywhere it occurs.
pub open spec fn substitute(s: Seq<char>, args: Seq<Seq<char>>) -> Seq<char> {
    substitute_from(s, 0, placeholders(s), args)
}

proof fn lemma_token_unique(s: Seq<char>, i: int, n: int, m: int)
    requires
        token_at(s, i, n),
        token_at(s, i, m),
    ensures
        n == m,
{
    if n < m {
        assert(is_name_char(s[i + n - 1]));
    } else if m < n {
        assert(is_name_char(s[i + m - 1]));
    }
}

proof fn lemma_distinct_empty(ts: Seq<Seq<char>>)
    ensures
        distinct(ts).len() == 0 <==> ts.len() == 0,
{
    if ts.len() > 0 {
        let d = distinct(ts.drop_last());
        if d.contains(ts.last()) {
            assert(d.len() > 0);
        } else {
            assert(d.push(ts.last()).len() > 0);
        }
    }
}

proof fn lemma_verbatim_from(s: Seq<char>, i: int, names: Seq<Seq<char>>, args: Seq<Seq<char>>)
    requires
        0 <= i <= s.len(),
        tokens_from(s, i).len() == 0,
    ensures
        substitute_from(s, i, names, args) == s.subrange(i, s.len() as int),
    decreases s.len() - i,
{
    if i < s.len() {
        if token_len(s, i) > 0 {
            assert(tokens_from(s, i).len() > 0);
        } else {
            lemma_verbatim_from(s, i + 1, names, args);
            assert(s.subrange(i, s.len() as int) =~= seq![s[i]] + s.subrange(i + 1, s.len() as int));
        }
    } else {
        assert(s.subrange(i, s.len() as int) =~= Seq::<char>::empty());
    }
}

/// A template without placeholders is left as it is, whatever the arguments.
pub proof fn lemma_no_placeholders_verbatim(s: Seq<char>, args: Seq<Seq<char>>)
    requires
        placeholders(s).len() == 0,
    ensures
        substitute(s, args) == s,
{
    lemma_distinct_empty(tokens_from(s, 0));
    lemma_verbatim_from(s, 0, placeholders(s), args);
    assert(s.subrange(0, s.len() as int) =~= s);
}

fn is_name_start_char(c: char) -> (r: bool)
    ensures
        r == is_name_start(c),
{
    ('a' <= c && c <= 'z') || ('A' <= c && c <= 'Z') || c == '_'
}

fn is_name_char_exec(c: char) -> (r: bool)
    ensures
        r == is_name_char(c),
{
    is_name_start_char(c) || ('0' <= c && c <= '9')
}

/// The length of the token that starts at `i`, or 0.
fn token_len_at(s: &str, n: usize, i: usize) -> (r: usize)
    requires
        n == s@.len(),
        i < n,
    ensures
        r == token_len(s@, i as int),
        r == 0 || (3 <= r && i + r <= n),
{
    let ghost q = s@;
    if s.get_char(i) != '{' || n - i <= 2 || !is_name_start_char(s.get_char(i + 1)) {
        assert forall|m: int| !token_at(q, i as int, m) by {}
        return 0;
    }
    let mut j: usize = i + 2;
    while j < n && is_name_char_exec(s.get_char(j))
        invariant
            q == s@,
            n == q.len(),
            i + 2 <= j <= n,
            forall|k: int| i + 1 <= k < j ==> is_name_char(#[trigger] q[k]),
        decreases n - j,
    {
        j = j + 1;
    }
    if j < n && s.get_char(j) == '}' {
        let r = j - i + 1;
        assert(token_at(q, i as int, r as int));
        proof {
            let c = choose|m: int| token_at(q, i as int, m);
            lemma_token_unique(q, i as int, r as int, c);
        }
        r
    } else {
        assert forall|m: int| !token_at(q, i as int, m) by {
            if token_at(q, i as int, m) {
                if i + m - 1 < j {
                    assert(is_name_char(q[i + m - 1]));
                } else if i + m - 1 > j {
                    assert(is_name_char(q[j as int]));
                }
            }
        }
        0
    }
}

/// The first position of `t` among `names`, if it is there.
fn position_of(names: &Vec<String>, t: &String) -> (r: Option<usize>)
    ensures
        r is None <==> !string_views(names@).contains(t@),
        r matches Some(k) ==> k < names@.len() && k == first_index(string_views(names@), t@),
{
    let ghost ns = string_views(names@);
    let mut j: usize = 0;
    while j < names.len()
        invariant
            ns == string_views(names@),
            0 <= j <= names@.len(),
            forall|k: int| 0 <= k < j ==> #[trigger] ns[k] != t@,
        decreases names@.len() - j,
    {
        if names[j] == *t {
            assert(ns[j as int] == t@);
            proof {
                let c = first_index(ns, t@);
                assert(0 <= c < ns.len() && ns[c] == t@ && forall|k: int| 0 <= k < c ==> ns[k] != t@);
                if c > j {
                    assert(ns[j as int] != t@);
                }
            }
            return Some(j);
        }
        j = j + 1;
    }
    assert forall|k: int| 0 <= k < ns.len() implies ns[k] != t@ by {}
    None
}

/// The distinct placeholders of `s`, in order of first occurrence.
pub fn find_placeholders(s: &str) -> (r: Vec<String>)
    ensures
        string_views(r@) == placeholders(s@),
{
    let ghost q = s@;
    let n = s.unicode_len();
    let mut out: Vec<String> = Vec::new();
    let ghost mut seen: Seq<Seq<char>> = Seq::empty();
    let mut i: usize = 0;
    while i < n
        invariant
            q == s@,
            n == q.len(),
            0 <= i <= n,
            tokens_from(q, 0) == seen + tokens_from(q, i as int),
            string_views(out@) == distinct(seen),
        decreases n - i,
    {
        let len = token_len_at(s, n, i);
        if len > 0 {
            let t = String::from_str(s.substring_char(i, i + len));
            let ghost tv = q.subrange(i as int, i + len);
            assert(tokens_from(q, i as int) == seq![tv] + tokens_from(q, i + len));
            assert(seen + tokens_from(q, i as int) =~= seen.push(tv) + tokens_from(q, i + len));
            assert(seen.push(tv).drop_last() =~= seen);
            if position_of(&out, &t).is_none() {
                out.push(t);
                assert(string_views(out@) =~= string_views(out@).drop_last().push(tv));
            }
            proof {
                seen = seen.push(tv);
            }
            i = i + len;
        } else {
            i = i + 1;
        }
    }
    assert(seen + tokens_from(q, i as int) =~= seen);
    out
}

/// `s` with each token that `names` holds replaced by the argument at the
/// same position.
pub(crate) fn fill(s: &str, names: &Vec<String>, args: &Vec<String>) -> (r: String)
    requires
        names@.len() <= args@.len(),
    ensures
        r@ == substitute_from(s@, 0, string_views(names@), string_views(args@)),
{
    let ghost q = s@;
    let ghost ns = string_views(names@);
    let ghost xs = string_views(args@);
    let n = s.unicode_len();
    let mut out = String::new();
    let mut i: usize = 0;
    while i < n
        invariant
            q == s@,
            ns == string_views(names@),
            xs == string_views(args@),
            names@.len() <= args@.len(),
            n == q.len(),
            0 <= i <= n,
            out@ + substitute_from(q, i as int, ns, xs) == substitute_from(q, 0, ns, xs),
        decreases n - i,
    {
        let ghost before = out@;
        let len = token_len_at(s, n, i);
        if len > 0 {
            let piece = s.substring_char(i, i + len);
            let t = String::from_str(piece);
            match position_of(names, &t) {
                Some(k) => {
                    out.append(args[k].as_str());
                },
                None => {
                    out.append(piece);
                },
            }
            assert(before + substitute_from(q, i as int, ns, xs) =~= out@ + substitute_from(q, i + len, ns, xs));
            i = i + len;
        } else {
            out.append(s.substring_char(i, i + 1));
            assert(before + substitute_from(q, i as int, ns, xs) =~= out@ + substitute_from(q, i + 1, ns, xs));
            i = i + 1;
        }
    }
    assert(out@ + substitute_from(q, i as int, ns, xs) =~= out@);
    out
}

} // verus!
