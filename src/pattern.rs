use vstd::prelude::*;
use crate::text::{is_ws, occurs_at};

verus! {

/// `key` stands at the start of `line`, after white space only: what
/// `^\s*key` matches.
pub open spec fn key_at_start(line: Seq<char>, key: Seq<char>) -> bool {
    exists|n: int|
        #![trigger line.subrange(n, n + key.len())]
        0 <= n && n + key.len() <= line.len() && (forall|m: int| 0 <= m < n ==> is_ws(line[m]))
            && line.subrange(n, n + key.len()) == key
}

/// A token `key` followed by at least one non-white character starts at
/// `i`: where `key\S+(\s+|$)` can match.
pub open spec fn token_at(s: Seq<char>, key: Seq<char>, i: int) -> bool {
    occurs_at(s, key, i) && i + key.len() < s.len() && !is_ws(s[i + key.len()])
}

/// The leftmost token `key` at or after `i`.
pub open spec fn first_token(s: Seq<char>, key: Seq<char>, i: int) -> Option<int>
    decreases s.len() - i,
{
    if i < 0 || i >= s.len() {
        None
    } else if token_at(s, key, i) {
        Some(i)
    } else {
        first_token(s, key, i + 1)
    }
}

/// The end of the run of characters from `j` on whose white-space-ness is `ws`.
pub open spec fn run_end(s: Seq<char>, j: int, ws: bool) -> int
    decreases s.len() - j,
{
    if j < 0 || j >= s.len() || is_ws(s[j]) != ws {
        j
    } else {
        run_end(s, j + 1, ws)
    }
}

/// Where the match of a token starting at `i` ends: the key, every
/// non-white character after it, then every white character after those.
pub open spec fn token_end(s: Seq<char>, key: Seq<char>, i: int) -> int {
    run_end(s, run_end(s, i + key.len(), false), true)
}

/// `s` with every token `key` (and the white space after it) replaced by
/// `rep`: the leftmost one, then, after it, the rest in the same way.
pub open spec fn replace_all(s: Seq<char>, key: Seq<char>, rep: Seq<char>) -> Seq<char>
    decreases s.len(),
    via replace_all_decreases
{
    match first_token(s, key, 0) {
        None => s,
        Some(i) => s.subrange(0, i) + rep + replace_all(
            s.subrange(token_end(s, key, i), s.len() as int),
            key,
            rep,
        ),
    }
}

#[via_fn]
proof fn replace_all_decreases(s: Seq<char>, key: Seq<char>, rep: Seq<char>) {
    if let Some(i) = first_token(s, key, 0) {
        lemma_first_token(s, key, 0);
        lemma_token_end(s, key, i);
    }
}

/// `first_token` finds the leftmost token at or after `j`.
pub proof fn lemma_first_token(s: Seq<char>, key: Seq<char>, j: int)
    requires
        0 <= j,
    ensures
        first_token(s, key, j) matches Some(i) ==> j <= i < s.len() && token_at(s, key, i) && forall|
            m: int,
        | j <= m < i ==> !token_at(s, key, m),
        first_token(s, key, j) is None ==> forall|m: int| j <= m < s.len() ==> !token_at(s, key, m),
    decreases s.len() - j,
{
    if j < s.len() && !token_at(s, key, j) {
        lemma_first_token(s, key, j + 1);
    }
}

/// A token's match ends after its key and value, at the end of the text or
/// after white space.
pub proof fn lemma_token_end(s: Seq<char>, key: Seq<char>, i: int)
    requires
        0 <= i,
        token_at(s, key, i),
    ensures
        i + key.len() < token_end(s, key, i) <= s.len(),
        token_end(s, key, i) < s.len() ==> is_ws(s[token_end(s, key, i) - 1]),
{
    let a = run_end(s, i + key.len(), false);
    lemma_run_end(s, i + key.len(), false);
    lemma_run_end(s, a, true);
    if a < s.len() {
        assert(is_ws(s[a]));
    }
}

pub proof fn lemma_run_end(s: Seq<char>, j: int, ws: bool)
    requires
        0 <= j <= s.len(),
    ensures
        j <= run_end(s, j, ws) <= s.len(),
        j < s.len() && is_ws(s[j]) == ws ==> j < run_end(s, j, ws),
        run_end(s, j, ws) < s.len() ==> is_ws(s[run_end(s, j, ws)]) != ws,
        forall|m: int| j <= m < run_end(s, j, ws) ==> is_ws(s[m]) == ws,
    decreases s.len() - j,
{
    if j < s.len() && is_ws(s[j]) == ws {
        lemma_run_end(s, j + 1, ws);
    }
}

// The keys are short literals: the patterns built from them stay far below
// the compiled-size limit under which `Regex::new` succeeds.

/// Relies on `regex::Regex::is_match` with the pattern `^\s*` followed by
/// `key` taken literally (`regex::escape`): `\s` is Unicode `White_Space`.
#[verifier::external_body]
pub(crate) fn line_starts_with_key(line: &str, key: &str) -> (r: bool)
    requires
        key@.len() <= 64,
    ensures
        r == key_at_start(line@, key@),
{
    let re = regex::Regex::new(&format!(r"^\s*{}", regex::escape(key))).unwrap();
    re.is_match(line)
}

/// Relies on `regex::Regex::replace_all` with the pattern `key\S+(\s+|$)`
/// (key taken literally): every non-overlapping match, leftmost first, is
/// replaced by `rep`, taken literally (`regex::NoExpand`).
#[verifier::external_body]
pub(crate) fn replace_all_tokens(s: &str, key: &str, rep: &str) -> (r: String)
    requires
        key@.len() <= 64,
    ensures
        r@ == replace_all(s@, key@, rep@),
{
    let re = regex::Regex::new(&format!(r"{}\S+(\s+|$)", regex::escape(key))).unwrap();
    re.replace_all(s, regex::NoExpand(rep)).into_owned()
}

} // verus!

verus! {

/// `k` is a non-empty key without white space.
pub open spec fn plain_key(k: Seq<char>) -> bool {
    k.len() > 0 && forall|m: int| 0 <= m < k.len() ==> !is_ws(#[trigger] k[m])
}

/// `k` does not occur in `s`.
pub open spec fn no_occ(s: Seq<char>, k: Seq<char>) -> bool {
    forall|j: int| !#[trigger] occurs_at(s, k, j)
}

/// `k` occurs at `j` at the start of a white-space separated token.
pub open spec fn tok_start(s: Seq<char>, k: Seq<char>, j: int) -> bool {
    occurs_at(s, k, j) && (j == 0 || is_ws(s[j - 1]))
}

/// Every occurrence of `k` in `s` starts a token and has a value after it.
pub open spec fn tokens_only(s: Seq<char>, k: Seq<char>) -> bool {
    forall|j: int| #[trigger] occurs_at(s, k, j) ==> tok_start(s, k, j) && token_at(s, k, j)
}

pub proof fn lemma_occ_prefix(s: Seq<char>, n: int, k: Seq<char>, j: int)
    requires
        0 <= n <= s.len(),
        occurs_at(s.subrange(0, n), k, j),
    ensures
        occurs_at(s, k, j),
        j + k.len() <= n,
{
    assert(s.subrange(j, j + k.len()) =~= s.subrange(0, n).subrange(j, j + k.len()));
}

proof fn lemma_occ_suffix(s: Seq<char>, e: int, k: Seq<char>, j: int)
    requires
        0 <= e <= s.len(),
        0 <= j,
    ensures
        occurs_at(s.subrange(e, s.len() as int), k, j) == occurs_at(s, k, e + j),
        token_at(s.subrange(e, s.len() as int), k, j) == token_at(s, k, e + j),
{
    let t = s.subrange(e, s.len() as int);
    if j + k.len() <= t.len() {
        assert(t.subrange(j, j + k.len()) =~= s.subrange(e + j, e + j + k.len()));
    }
    if j + k.len() < t.len() {
        assert(t[j + k.len()] == s[e + j + k.len()]);
    }
}

/// An occurrence of a plain key in `a + " " + b` lies in `a` or in `b`.
pub proof fn lemma_occ_split(a: Seq<char>, b: Seq<char>, k: Seq<char>, j: int)
    requires
        plain_key(k),
        occurs_at(a + seq![' '] + b, k, j),
    ensures
        (j + k.len() <= a.len() && occurs_at(a, k, j)) || (j > a.len() && occurs_at(
            b,
            k,
            j - a.len() - 1,
        )),
{
    let c = a + seq![' '] + b;
    if j <= a.len() && a.len() < j + k.len() {
        assert(c.subrange(j, j + k.len())[a.len() - j] == c[a.len() as int]);
        assert(k[a.len() - j] == ' ');
        assert(is_ws(' '));
    } else if j + k.len() <= a.len() {
        assert(a.subrange(j, j + k.len()) =~= c.subrange(j, j + k.len()));
    } else {
        assert(b.subrange(j - a.len() - 1, j - a.len() - 1 + k.len()) =~= c.subrange(
            j,
            j + k.len(),
        ));
    }
}

/// Where every occurrence of `k` is a whole token, replacing the tokens `k`
/// by a space leaves no occurrence of `k`.
pub proof fn lemma_strip_removes(s: Seq<char>, k: Seq<char>)
    requires
        plain_key(k),
        tokens_only(s, k),
    ensures
        no_occ(replace_all(s, k, seq![' ']), k),
    decreases s.len(),
{
    lemma_first_token(s, k, 0);
    match first_token(s, k, 0) {
        None => {
            assert forall|j: int| !#[trigger] occurs_at(s, k, j) by {
                if occurs_at(s, k, j) {
                    assert(token_at(s, k, j));
                }
            }
        },
        Some(i) => {
            lemma_token_end(s, k, i);
            let e = token_end(s, k, i);
            let pre = s.subrange(0, i);
            let post = s.subrange(e, s.len() as int);
            assert forall|m: int| #[trigger] occurs_at(post, k, m) implies tok_start(post, k, m)
                && token_at(post, k, m) by {
                lemma_occ_suffix(s, e, k, m);
                if m > 0 {
                    assert(post[m - 1] == s[e + m - 1]);
                }
            }
            lemma_strip_removes(post, k);
            let r = replace_all(post, k, seq![' ']);
            assert(replace_all(s, k, seq![' ']) == pre + seq![' '] + r);
            assert forall|j: int| !#[trigger] occurs_at(pre + seq![' '] + r, k, j) by {
                if occurs_at(pre + seq![' '] + r, k, j) {
                    lemma_occ_split(pre, r, k, j);
                    if j + k.len() <= pre.len() {
                        lemma_occ_prefix(s, i, k, j);
                        assert(token_at(s, k, j));
                    }
                }
            }
        },
    }
}

/// Replacing the tokens `k` by a space keeps every occurrence of another
/// key `l` a whole token, where the tokens `k` are whole tokens too.
pub proof fn lemma_strip_keeps_tokens(s: Seq<char>, k: Seq<char>, l: Seq<char>)
    requires
        plain_key(k),
        plain_key(l),
        tokens_only(s, k),
        tokens_only(s, l),
    ensures
        tokens_only(replace_all(s, k, seq![' ']), l),
    decreases s.len(),
{
    lemma_first_token(s, k, 0);
    if let Some(i) = first_token(s, k, 0) {
        lemma_token_end(s, k, i);
        let e = token_end(s, k, i);
        let pre = s.subrange(0, i);
        let post = s.subrange(e, s.len() as int);
        assert forall|m: int| #[trigger] occurs_at(post, k, m) implies tok_start(post, k, m)
            && token_at(post, k, m) by {
            lemma_occ_suffix(s, e, k, m);
            if m > 0 {
                assert(post[m - 1] == s[e + m - 1]);
            }
        }
        assert forall|m: int| #[trigger] occurs_at(post, l, m) implies tok_start(post, l, m)
            && token_at(post, l, m) by {
            lemma_occ_suffix(s, e, l, m);
            if m > 0 {
                assert(post[m - 1] == s[e + m - 1]);
            }
        }
        lemma_strip_keeps_tokens(post, k, l);
        let r = replace_all(post, k, seq![' ']);
        let c = pre + seq![' '] + r;
        assert(replace_all(s, k, seq![' ']) == c);
        assert(occurs_at(s, k, i));
        assert forall|j: int| #[trigger] occurs_at(c, l, j) implies tok_start(c, l, j) && token_at(
            c,
            l,
            j,
        ) by {
            lemma_occ_split(pre, r, l, j);
            if j + l.len() <= pre.len() {
                lemma_occ_prefix(s, i, l, j);
                assert(tok_start(s, l, j) && token_at(s, l, j));
                if j > 0 {
                    assert(c[j - 1] == s[j - 1]);
                }
                if j + l.len() == i {
                    assert(s[i - 1] == s.subrange(j, j + l.len())[l.len() - 1]);
                    assert(!is_ws(l[l.len() - 1]));
                    assert(tok_start(s, k, i));
                } else {
                    assert(c[j + l.len()] == s[j + l.len()]);
                }
            } else {
                let m = j - pre.len() - 1;
                assert(tok_start(r, l, m) && token_at(r, l, m));
                if m > 0 {
                    assert(c[j - 1] == r[m - 1]);
                } else {
                    assert(c[j - 1] == ' ');
                }
                assert(c.subrange(j, j + l.len()) =~= r.subrange(m, m + l.len()));
                assert(c[j + l.len()] == r[m + l.len()]);
            }
        }
    }
}

/// Replacing tokens by a space brings in no occurrence of a key that `s`
/// lacks.
pub proof fn lemma_strip_keeps_absent(s: Seq<char>, k: Seq<char>, m: Seq<char>)
    requires
        plain_key(k),
        plain_key(m),
        no_occ(s, m),
    ensures
        no_occ(replace_all(s, k, seq![' ']), m),
    decreases s.len(),
{
    lemma_first_token(s, k, 0);
    if let Some(i) = first_token(s, k, 0) {
        lemma_token_end(s, k, i);
        let e = token_end(s, k, i);
        let pre = s.subrange(0, i);
        let post = s.subrange(e, s.len() as int);
        assert forall|j: int| !#[trigger] occurs_at(post, m, j) by {
            if j >= 0 {
                lemma_occ_suffix(s, e, m, j);
            }
        }
        lemma_strip_keeps_absent(post, k, m);
        let r = replace_all(post, k, seq![' ']);
        assert(replace_all(s, k, seq![' ']) == pre + seq![' '] + r);
        assert forall|j: int| !#[trigger] occurs_at(pre + seq![' '] + r, m, j) by {
            if occurs_at(pre + seq![' '] + r, m, j) {
                lemma_occ_split(pre, r, m, j);
                if j + m.len() <= pre.len() {
                    lemma_occ_prefix(s, i, m, j);
                }
            }
        }
    }
}

} // verus!
