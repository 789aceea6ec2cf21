//! Paths are handled as text: `/`-separated, Unix style.
use vstd::prelude::*;

verus! {

/// `rel` appended to `base` the way a path is pushed onto another: an
/// absolute `rel` replaces `base`, otherwise one separator stands between.
pub open spec fn join_spec(base: Seq<char>, rel: Seq<char>) -> Seq<char> {
    if rel.len() > 0 && rel[0] == '/' {
        rel
    } else if base.len() == 0 || base[base.len() - 1] == '/' {
        base + rel
    } else {
        base + seq!['/'] + rel
    }
}

/// `s` without its leading separators.
pub open spec fn trim_slashes_spec(s: Seq<char>) -> Seq<char>
    decreases s.len(),
{
    if s.len() > 0 && s[0] == '/' {
        trim_slashes_spec(s.subrange(1, s.len() as int))
    } else {
        s
    }
}

pub open spec fn is_prefix(p: Seq<char>, s: Seq<char>) -> bool {
    p.len() <= s.len() && s.subrange(0, p.len() as int) == p
}

pub open spec fn occurs_at(s: Seq<char>, sub: Seq<char>, i: int) -> bool {
    0 <= i && i + sub.len() <= s.len() && s.subrange(i, i + sub.len()) == sub
}

pub open spec fn contains_spec(s: Seq<char>, sub: Seq<char>) -> bool {
    exists|i: int| occurs_at(s, sub, i)
}

/// `base` without trailing separators.
pub open spec fn trim_trailing_spec(s: Seq<char>) -> Seq<char>
    decreases s.len(),
{
    if s.len() > 0 && s[s.len() - 1] == '/' {
        trim_trailing_spec(s.drop_last())
    } else {
        s
    }
}

/// The part of `path` below the directory `base`, if `path` lies inside it
/// (`base` itself gives the empty remainder).
pub open spec fn strip_dir_spec(path: Seq<char>, base: Seq<char>) -> Option<Seq<char>> {
    let b = trim_trailing_spec(base);
    if path == b {
        Some(Seq::empty())
    } else if is_prefix(b + seq!['/'], path) {
        Some(path.subrange(b.len() as int + 1, path.len() as int))
    } else {
        None
    }
}

/// How a character ranks when paths are ordered: the separator before all
/// others, so that the order is the one of the paths' components.
pub open spec fn char_rank(c: char) -> int {
    if c == '/' {
        0
    } else {
        c as int + 1
    }
}

/// The order of paths: lexicographic by `char_rank`.
pub open spec fn path_lt(a: Seq<char>, b: Seq<char>) -> bool
    decreases a.len(),
{
    if a.len() == 0 {
        b.len() > 0
    } else if b.len() == 0 {
        false
    } else if a[0] != b[0] {
        char_rank(a[0]) < char_rank(b[0])
    } else {
        path_lt(a.drop_first(), b.drop_first())
    }
}

pub open spec fn strictly_sorted(s: Seq<Seq<char>>) -> bool {
    forall|i: int, j: int| 0 <= i < j < s.len() ==> path_lt(#[trigger] s[i], #[trigger] s[j])
}

pub open spec fn texts(v: Seq<String>) -> Seq<Seq<char>> {
    v.map_values(|s: String| s@)
}

pub open spec fn opt_text(o: Option<&str>) -> Option<Seq<char>> {
    match o {
        Some(s) => Some(s@),
        None => None,
    }
}

pub open spec fn opt_string(o: Option<String>) -> Option<Seq<char>> {
    match o {
        Some(s) => Some(s@),
        None => None,
    }
}

/// The text of an optional string, borrowed.
pub fn opt_str(o: &Option<String>) -> (r: Option<&str>)
    ensures
        opt_text(r) == opt_string(*o),
{
    match o {
        Some(s) => Some(s.as_str()),
        None => None,
    }
}

pub proof fn lemma_contains_push(s: Seq<Seq<char>>, x: Seq<char>, p: Seq<char>)
    ensures
        s.push(x).contains(p) <==> (s.contains(p) || p == x),
{
    if s.push(x).contains(p) {
        let k = choose|k: int| 0 <= k < s.len() + 1 && s.push(x)[k] == p;
        if k < s.len() {
            assert(s[k] == p);
        }
    }
    if s.contains(p) {
        let k = choose|k: int| 0 <= k < s.len() && s[k] == p;
        assert(s.push(x)[k] == p);
    }
    if p == x {
        assert(s.push(x)[s.len() as int] == x);
    }
}

pub proof fn lemma_rank_injective(a: char, b: char)
    ensures
        char_rank(a) == char_rank(b) ==> a == b,
{
    if char_rank(a) == char_rank(b) && a != b {
        if a == '/' {
            assert(char_rank(b) > 0);
        } else if b == '/' {
            assert(char_rank(a) > 0);
        } else {
            assert((a as int) == (b as int));
        }
    }
}

pub proof fn lemma_path_lt_irreflexive(a: Seq<char>)
    ensures
        !path_lt(a, a),
    decreases a.len(),
{
    if a.len() > 0 {
        lemma_path_lt_irreflexive(a.drop_first());
    }
}

pub proof fn lemma_path_lt_transitive(a: Seq<char>, b: Seq<char>, c: Seq<char>)
    requires
        path_lt(a, b),
        path_lt(b, c),
    ensures
        path_lt(a, c),
    decreases a.len(),
{
    if a.len() > 0 && b.len() > 0 && c.len() > 0 {
        if a[0] == b[0] && b[0] == c[0] {
            lemma_path_lt_transitive(a.drop_first(), b.drop_first(), c.drop_first());
        }
    }
}

pub proof fn lemma_path_lt_total(a: Seq<char>, b: Seq<char>)
    ensures
        a == b || path_lt(a, b) || path_lt(b, a),
    decreases a.len(),
{
    if a.len() > 0 && b.len() > 0 {
        if a[0] == b[0] {
            lemma_path_lt_total(a.drop_first(), b.drop_first());
            if a.drop_first() == b.drop_first() {
                assert(a =~= seq![a[0]] + a.drop_first());
                assert(b =~= seq![b[0]] + b.drop_first());
            }
        } else {
            lemma_rank_injective(a[0], b[0]);
        }
    } else if a.len() == 0 && b.len() == 0 {
        assert(a =~= b);
    }
}

pub proof fn lemma_path_lt_asymmetric(a: Seq<char>, b: Seq<char>)
    ensures
        !(path_lt(a, b) && path_lt(b, a)),
{
    if path_lt(a, b) && path_lt(b, a) {
        lemma_path_lt_transitive(a, b, a);
        lemma_path_lt_irreflexive(a);
    }
}

/// Two strictly sorted sequences that hold the same paths are the same.
pub proof fn lemma_sorted_unique(s: Seq<Seq<char>>, t: Seq<Seq<char>>)
    requires
        strictly_sorted(s),
        strictly_sorted(t),
        forall|x: Seq<char>| s.contains(x) <==> t.contains(x),
    ensures
        s == t,
    decreases s.len(),
{
    if s.len() == 0 {
        if t.len() > 0 {
            assert(t.contains(t[0]));
        }
        assert(s =~= t);
    } else if t.len() == 0 {
        assert(s.contains(s[0]));
    } else {
        // the first elements are the least of each, so they agree
        assert(s.contains(s[0]));
        assert(t.contains(t[0]));
        let i = choose|i: int| 0 <= i < t.len() && t[i] == s[0];
        let j = choose|j: int| 0 <= j < s.len() && s[j] == t[0];
        if i > 0 {
            assert(path_lt(t[0], t[i]));
            if j > 0 {
                assert(path_lt(s[0], s[j]));
                lemma_path_lt_asymmetric(s[0], t[0]);
            } else {
                lemma_path_lt_irreflexive(s[0]);
            }
        }
        assert(s[0] == t[0]);
        let s1 = s.drop_first();
        let t1 = t.drop_first();
        assert forall|x: Seq<char>| s1.contains(x) <==> t1.contains(x) by {
            if s1.contains(x) {
                let k = choose|k: int| 0 <= k < s1.len() && s1[k] == x;
                assert(s[k + 1] == x);
                assert(path_lt(s[0], s[k + 1]));
                assert(s.contains(x));
                let m = choose|m: int| 0 <= m < t.len() && t[m] == x;
                if m == 0 {
                    lemma_path_lt_irreflexive(x);
                }
                assert(t1[m - 1] == x);
            }
            if t1.contains(x) {
                let k = choose|k: int| 0 <= k < t1.len() && t1[k] == x;
                assert(t[k + 1] == x);
                assert(path_lt(t[0], t[k + 1]));
                assert(t.contains(x));
                let m = choose|m: int| 0 <= m < s.len() && s[m] == x;
                if m == 0 {
                    lemma_path_lt_irreflexive(x);
                }
                assert(s1[m - 1] == x);
            }
        }
        lemma_sorted_unique(s1, t1);
        assert(s =~= seq![s[0]] + s1);
        assert(t =~= seq![t[0]] + t1);
    }
}

/// Whether `a` comes before `b` in the order of paths.
pub fn path_less(a: &str, b: &str) -> (r: bool)
    ensures
        r == path_lt(a@, b@),
{
    let la = a.unicode_len();
    let lb = b.unicode_len();
    let mut i: usize = 0;
    assert(a@.skip(0) =~= a@);
    assert(b@.skip(0) =~= b@);
    while i < la && i < lb
        invariant
            la == a@.len(),
            lb == b@.len(),
            i <= la,
            i <= lb,
            path_lt(a@, b@) == path_lt(a@.skip(i as int), b@.skip(i as int)),
        decreases la - i,
    {
        let ca = a.get_char(i);
        let cb = b.get_char(i);
        let ghost sa = a@.skip(i as int);
        let ghost sb = b@.skip(i as int);
        assert(sa[0] == ca && sb[0] == cb);
        if ca != cb {
            let ra: u32 = if ca == '/' { 0 } else { ca as u32 + 1 };
            let rb: u32 = if cb == '/' { 0 } else { cb as u32 + 1 };
            return ra < rb;
        }
        assert(sa.drop_first() =~= a@.skip(i + 1));
        assert(sb.drop_first() =~= b@.skip(i + 1));
        i = i + 1;
    }
    i == la && i < lb
}

/// Whether the two texts are equal.
pub fn same_text(a: &str, b: &str) -> (r: bool)
    ensures
        r == (a@ == b@),
{
    let la = a.unicode_len();
    let lb = b.unicode_len();
    if la != lb {
        return false;
    }
    let mut i: usize = 0;
    while i < la
        invariant
            la == a@.len(),
            lb == b@.len(),
            la == lb,
            i <= la,
            a@.subrange(0, i as int) == b@.subrange(0, i as int),
        decreases la - i,
    {
        if a.get_char(i) != b.get_char(i) {
            return false;
        }
        assert(a@.subrange(0, i + 1) =~= a@.subrange(0, i as int).push(a@[i as int]));
        assert(b@.subrange(0, i + 1) =~= b@.subrange(0, i as int).push(b@[i as int]));
        i = i + 1;
    }
    assert(a@ =~= a@.subrange(0, la as int));
    assert(b@ =~= b@.subrange(0, lb as int));
    true
}

/// Whether `s` occurs in `text` at char position `at`.
fn occurs_at_exec(text: &str, sub: &str, at: usize) -> (r: bool)
    requires
        text@.len() < usize::MAX,
    ensures
        r == occurs_at(text@, sub@, at as int),
{
    let lt = text.unicode_len();
    let ls = sub.unicode_len();
    if ls > lt || at > lt - ls {
        return false;
    }
    let mut i: usize = 0;
    while i < ls
        invariant
            lt == text@.len(),
            ls == sub@.len(),
            at + ls <= lt,
            i <= ls,
            text@.subrange(at as int, at + i) == sub@.subrange(0, i as int),
        decreases ls - i,
    {
        if text.get_char(at + i) != sub.get_char(i) {
            assert(text@.subrange(at as int, at + ls)[i as int] == text@[at + i]);
            return false;
        }
        assert(text@.subrange(at as int, at + i + 1) =~= text@.subrange(at as int, at + i).push(
            text@[at + i],
        ));
        assert(sub@.subrange(0, i + 1) =~= sub@.subrange(0, i as int).push(sub@[i as int]));
        i = i + 1;
    }
    assert(sub@ =~= sub@.subrange(0, ls as int));
    true
}

/// Whether `prefix` begins `text`.
pub fn starts_with(text: &str, prefix: &str) -> (r: bool)
    requires
        text@.len() < usize::MAX,
    ensures
        r == is_prefix(prefix@, text@),
{
    occurs_at_exec(text, prefix, 0)
}

/// Whether `sub` occurs anywhere in `text`.
pub fn contains_text(text: &str, sub: &str) -> (r: bool)
    requires
        text@.len() < usize::MAX,
    ensures
        r == contains_spec(text@, sub@),
{
    let lt = text.unicode_len();
    let ls = sub.unicode_len();
    if ls > lt {
        return false;
    }
    let mut i: usize = 0;
    while i <= lt - ls
        invariant
            lt == text@.len(),
            ls == sub@.len(),
            ls <= lt,
            i <= lt - ls + 1,
            lt < usize::MAX,
            forall|k: int| 0 <= k < i ==> !occurs_at(text@, sub@, k),
        decreases lt - ls + 1 - i,
    {
        if occurs_at_exec(text, sub, i) {
            return true;
        }
        i = i + 1;
    }
    assert forall|k: int| !occurs_at(text@, sub@, k) by {
        if 0 <= k && k + ls <= lt {
            assert(k < i);
        }
    }
    false
}

/// `rel` appended to `base` (see `join_spec`).
pub fn join_path(base: &str, rel: &str) -> (r: String)
    ensures
        r@ == join_spec(base@, rel@),
{
    let lb = base.unicode_len();
    let lr = rel.unicode_len();
    if lr > 0 && rel.get_char(0) == '/' {
        return String::from_str(rel);
    }
    let out = String::from_str(base);
    if lb == 0 || base.get_char(lb - 1) == '/' {
        out.concat(rel)
    } else {
        let out = out.concat("/");
        proof {
            reveal_strlit("/");
        }
        out.concat(rel)
    }
}

/// `s` without its leading separators.
pub fn trim_leading_slashes(s: &str) -> (r: String)
    ensures
        r@ == trim_slashes_spec(s@),
{
    let n = s.unicode_len();
    let mut i: usize = 0;
    assert(s@.subrange(0, n as int) =~= s@);
    while i < n && s.get_char(i) == '/'
        invariant
            n == s@.len(),
            i <= n,
            trim_slashes_spec(s@.subrange(i as int, n as int)) == trim_slashes_spec(s@),
        decreases n - i,
    {
        let ghost t = s@.subrange(i as int, n as int);
        assert(t.subrange(1, t.len() as int) =~= s@.subrange(i + 1, n as int));
        i = i + 1;
    }
    String::from_str(s.substring_char(i, n))
}

/// The part of `path` below the directory `base`, if it lies inside it.
pub fn strip_dir(path: &str, base: &str) -> (r: Option<String>)
    requires
        path@.len() < usize::MAX,
    ensures
        r matches Some(x) ==> strip_dir_spec(path@, base@) == Some(x@),
        r is None ==> strip_dir_spec(path@, base@) is None,
{
    let mut n = base.unicode_len();
    assert(base@.subrange(0, n as int) =~= base@);
    while n > 0 && base.get_char(n - 1) == '/'
        invariant
            n <= base@.len(),
            trim_trailing_spec(base@.subrange(0, n as int)) == trim_trailing_spec(base@),
        decreases n,
    {
        assert(base@.subrange(0, n as int).drop_last() =~= base@.subrange(0, n - 1));
        n = n - 1;
    }
    let b = base.substring_char(0, n);
    assert(trim_trailing_spec(b@) == b@);
    if same_text(path, b) {
        return Some(String::new());
    }
    let b_sep = String::from_str(b).concat("/");
    proof {
        reveal_strlit("/");
    }
    assert(b_sep@ == b@ + seq!['/']);
    if starts_with(path, b_sep.as_str()) {
        let lp = path.unicode_len();
        Some(String::from_str(path.substring_char(n + 1, lp)))
    } else {
        None
    }
}

/// Inserts `x` into a strictly sorted list of paths, unless it is there.
pub fn insert_sorted(v: &mut Vec<String>, x: String)
    requires
        strictly_sorted(texts(old(v)@)),
    ensures
        strictly_sorted(texts(final(v)@)),
        forall|p: Seq<char>|
            texts(final(v)@).contains(p) <==> (texts(old(v)@).contains(p) || p == x@),
{
    let n = v.len();
    let mut i: usize = 0;
    while i < n && path_less(v[i].as_str(), x.as_str())
        invariant
            n == v.len(),
            i <= n,
            forall|k: int| 0 <= k < i ==> path_lt(#[trigger] texts(v@)[k], x@),
        decreases n - i,
    {
        i = i + 1;
    }
    let ghost old_t = texts(v@);
    if i < n && v[i] == x {
        assert(old_t[i as int] == x@);
        assert(old_t.contains(x@));
        return;
    }
    proof {
        if i < n {
            lemma_path_lt_total(old_t[i as int], x@);
        }
    }
    v.insert(i, x);
    let ghost new_t = texts(v@);
    assert(new_t =~= old_t.insert(i as int, x@));
    assert forall|a: int, b: int| 0 <= a < b < new_t.len() implies path_lt(
        #[trigger] new_t[a],
        #[trigger] new_t[b],
    ) by {
        if b < i {
        } else if b == i {
        } else if a < i {
            // a < i < b
            assert(path_lt(old_t[a], x@));
            assert(path_lt(x@, old_t[i as int]));
            if b - 1 > i {
                assert(path_lt(old_t[i as int], old_t[b - 1]));
                lemma_path_lt_transitive(x@, old_t[i as int], old_t[b - 1]);
            }
            lemma_path_lt_transitive(old_t[a], x@, old_t[b - 1]);
        } else if a == i {
            if b - 1 > i {
                assert(path_lt(old_t[i as int], old_t[b - 1]));
                lemma_path_lt_transitive(x@, old_t[i as int], old_t[b - 1]);
            }
        } else {
            assert(new_t[a] == old_t[a - 1]);
            assert(new_t[b] == old_t[b - 1]);
        }
    }
    assert forall|p: Seq<char>| new_t.contains(p) <==> (old_t.contains(p) || p == x@) by {
        if new_t.contains(p) {
            let k = choose|k: int| 0 <= k < new_t.len() && new_t[k] == p;
            if k < i {
                assert(old_t[k] == p);
            } else if k > i {
                assert(old_t[k - 1] == p);
            }
        }
        if old_t.contains(p) {
            let k = choose|k: int| 0 <= k < old_t.len() && old_t[k] == p;
            if k < i {
                assert(new_t[k] == p);
            } else {
                assert(new_t[k + 1] == p);
            }
        }
        if p == x@ {
            assert(new_t[i as int] == p);
        }
    }
}

pub proof fn lemma_filter_sorted(all: Seq<Seq<char>>, sel: spec_fn(Seq<char>) -> bool, a: int, b: int)
    requires
        strictly_sorted(all),
        0 <= a < b < all.filter(sel).len(),
    ensures
        path_lt(all.filter(sel)[a], all.filter(sel)[b]),
    decreases all.len(),
{
    let f = all.filter(sel);
    let init = all.drop_last();
    assert(strictly_sorted(init)) by {
        assert forall|i: int, j: int| 0 <= i < j < init.len() implies path_lt(
            #[trigger] init[i],
            #[trigger] init[j],
        ) by {
            assert(init[i] == all[i] && init[j] == all[j]);
        }
    }
    reveal(Seq::filter);
    if sel(all.last()) && b == f.len() - 1 {
        // f = init.filter(sel).push(last)
        assert(f == init.filter(sel).push(all.last()));
        assert(f[a] == init.filter(sel)[a]);
        assert(init.filter(sel).contains(init.filter(sel)[a]));
        init.lemma_filter_contains_rev(sel, init.filter(sel)[a]);
        assert(init.contains(f[a]));
        let k = choose|k: int| 0 <= k < init.len() && init[k] == f[a];
        assert(all[k] == init[k]);
        assert(path_lt(all[k], all[all.len() - 1]));
    } else if sel(all.last()) {
        assert(f == init.filter(sel).push(all.last()));
        lemma_filter_sorted(init, sel, a, b);
    } else {
        assert(f == init.filter(sel));
        lemma_filter_sorted(init, sel, a, b);
    }
}

/// The position of the first `c` in `s`, or `s.len()` where there is none.
pub open spec fn first_index_of(s: Seq<char>, c: char) -> int
    decreases s.len(),
{
    if s.len() == 0 {
        0
    } else if s[0] == c {
        0
    } else {
        1 + first_index_of(s.drop_first(), c)
    }
}

pub proof fn lemma_first_index_of(s: Seq<char>, c: char)
    ensures
        0 <= first_index_of(s, c) <= s.len(),
        forall|k: int| 0 <= k < first_index_of(s, c) ==> s[k] != c,
        first_index_of(s, c) < s.len() ==> s[first_index_of(s, c)] == c,
    decreases s.len(),
{
    if s.len() > 0 && s[0] != c {
        lemma_first_index_of(s.drop_first(), c);
        assert forall|k: int| 0 <= k < first_index_of(s, c) implies s[k] != c by {
            if k > 0 {
                assert(s[k] == s.drop_first()[k - 1]);
            }
        }
    }
}

/// `s` split at its first `c`.
pub open spec fn split_spec(s: Seq<char>, c: char) -> Option<(Seq<char>, Seq<char>)> {
    let i = first_index_of(s, c);
    if i < s.len() {
        Some((s.subrange(0, i), s.subrange(i + 1, s.len() as int)))
    } else {
        None
    }
}

/// `s` split at its first `c`.
pub fn split_at_char(s: &str, c: char) -> (r: Option<(String, String)>)
    ensures
        match r {
            Some((a, b)) => split_spec(s@, c) == Some((a@, b@)),
            None => split_spec(s@, c) is None,
        },
{
    let n = s.unicode_len();
    let mut i: usize = 0;
    proof {
        lemma_first_index_of(s@, c);
    }
    while i < n && s.get_char(i) != c
        invariant
            n == s@.len(),
            i <= n,
            forall|k: int| 0 <= k < i ==> s@[k] != c,
            0 <= first_index_of(s@, c) <= n,
            forall|k: int| 0 <= k < first_index_of(s@, c) ==> s@[k] != c,
            first_index_of(s@, c) < n ==> s@[first_index_of(s@, c)] == c,
        decreases n - i,
    {
        i = i + 1;
    }
    assert(i == first_index_of(s@, c));
    if i < n {
        Some((String::from_str(s.substring_char(0, i)), String::from_str(s.substring_char(i + 1, n))))
    } else {
        None
    }
}

/// The order of texts: lexicographic by character code.
pub open spec fn text_lt(a: Seq<char>, b: Seq<char>) -> bool
    decreases a.len(),
{
    if a.len() == 0 {
        b.len() > 0
    } else if b.len() == 0 {
        false
    } else if a[0] != b[0] {
        (a[0] as int) < (b[0] as int)
    } else {
        text_lt(a.drop_first(), b.drop_first())
    }
}

pub proof fn lemma_text_lt_irreflexive(a: Seq<char>)
    ensures
        !text_lt(a, a),
    decreases a.len(),
{
    if a.len() > 0 {
        lemma_text_lt_irreflexive(a.drop_first());
    }
}

pub proof fn lemma_text_lt_transitive(a: Seq<char>, b: Seq<char>, c: Seq<char>)
    requires
        text_lt(a, b),
        text_lt(b, c),
    ensures
        text_lt(a, c),
    decreases a.len(),
{
    if a.len() > 0 && b.len() > 0 && c.len() > 0 {
        if a[0] == b[0] && b[0] == c[0] {
            lemma_text_lt_transitive(a.drop_first(), b.drop_first(), c.drop_first());
        }
    }
}

pub proof fn lemma_text_lt_total(a: Seq<char>, b: Seq<char>)
    ensures
        a == b || text_lt(a, b) || text_lt(b, a),
    decreases a.len(),
{
    if a.len() > 0 && b.len() > 0 {
        if a[0] == b[0] {
            lemma_text_lt_total(a.drop_first(), b.drop_first());
            if a.drop_first() == b.drop_first() {
                assert(a =~= seq![a[0]] + a.drop_first());
                assert(b =~= seq![b[0]] + b.drop_first());
            }
        } else {
            assert((a[0] as int) != (b[0] as int));
        }
    } else if a.len() == 0 && b.len() == 0 {
        assert(a =~= b);
    }
}

/// Whether `a` comes before `b` by character code.
pub fn text_less(a: &str, b: &str) -> (r: bool)
    ensures
        r == text_lt(a@, b@),
{
    let la = a.unicode_len();
    let lb = b.unicode_len();
    let mut i: usize = 0;
    assert(a@.skip(0) =~= a@);
    assert(b@.skip(0) =~= b@);
    while i < la && i < lb
        invariant
            la == a@.len(),
            lb == b@.len(),
            i <= la,
            i <= lb,
            text_lt(a@, b@) == text_lt(a@.skip(i as int), b@.skip(i as int)),
        decreases la - i,
    {
        let ca = a.get_char(i);
        let cb = b.get_char(i);
        let ghost sa = a@.skip(i as int);
        let ghost sb = b@.skip(i as int);
        assert(sa[0] == ca && sb[0] == cb);
        if ca != cb {
            return (ca as u32) < (cb as u32);
        }
        assert(sa.drop_first() =~= a@.skip(i + 1));
        assert(sb.drop_first() =~= b@.skip(i + 1));
        i = i + 1;
    }
    i == la && i < lb
}

} // verus!
