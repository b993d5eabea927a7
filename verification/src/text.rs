//! Text utilities: splitting, tokenizing and comparing strings.
//!
//! Everything here is stated over the `Seq<char>` views of strings, so that
//! the higher layers (element navigation, matrix parsing, path deduction)
//! can speak of exactly which segments and tokens a string decomposes into.

use vstd::prelude::*;

verus! {

/// The ASCII whitespace characters that separate matrix entries.
pub open spec fn is_ws_char(c: char) -> bool {
    c == ' ' || c == '\t' || c == '\n' || c == '\r' || c == '\u{b}' || c == '\u{c}'
}

/// The views of a sequence of strings.
pub open spec fn strs_view(v: Seq<String>) -> Seq<Seq<char>> {
    v.map_values(|s: String| s@)
}

/// The segments of `s` split exactly at every occurrence of `sep`.
///
/// There is always at least one segment; an empty input yields one empty
/// segment, and consecutive separators yield empty segments between them.
pub open spec fn split_seq(s: Seq<char>, sep: char) -> Seq<Seq<char>>
    decreases s.len(),
{
    if s.len() == 0 {
        seq![Seq::<char>::empty()]
    } else if s[0] == sep {
        seq![Seq::<char>::empty()] + split_seq(s.drop_first(), sep)
    } else {
        let rest = split_seq(s.drop_first(), sep);
        seq![seq![s[0]] + rest[0]] + rest.drop_first()
    }
}

pub proof fn lemma_split_seq_len(s: Seq<char>, sep: char)
    ensures
        split_seq(s, sep).len() >= 1,
    decreases s.len(),
{
    if s.len() != 0 {
        lemma_split_seq_len(s.drop_first(), sep);
    }
}

/// A separator-free string splits into itself alone.
pub proof fn lemma_split_seq_nosep(a: Seq<char>, sep: char)
    requires
        forall|i: int| 0 <= i < a.len() ==> a[i] != sep,
    ensures
        split_seq(a, sep) =~~= seq![a],
    decreases a.len(),
{
    if a.len() != 0 {
        lemma_split_seq_nosep(a.drop_first(), sep);
        assert(seq![a[0]] + a.drop_first() =~= a);
    }
}

/// Splitting at the first separator peels off the separator-free prefix.
pub proof fn lemma_split_seq_sep(a: Seq<char>, r: Seq<char>, sep: char)
    requires
        forall|i: int| 0 <= i < a.len() ==> a[i] != sep,
    ensures
        split_seq(a + seq![sep] + r, sep) =~~= seq![a] + split_seq(r, sep),
    decreases a.len(),
{
    let s = a + seq![sep] + r;
    if a.len() == 0 {
        assert(s[0] == sep);
        assert(s.drop_first() =~= r);
    } else {
        lemma_split_seq_sep(a.drop_first(), r, sep);
        assert(s[0] == a[0]);
        assert(s.drop_first() =~= a.drop_first() + seq![sep] + r);
        let rest = split_seq(s.drop_first(), sep);
        assert(rest =~~= seq![a.drop_first()] + split_seq(r, sep));
        assert(rest[0] == a.drop_first());
        assert(seq![s[0]] + rest[0] =~= a);
        assert(rest.drop_first() =~~= split_seq(r, sep));
    }
}

/// Splits a string at every occurrence of `sep`.
pub fn split(s: &str, sep: char) -> (out: Vec<String>)
    ensures
        strs_view(out@) == split_seq(s@, sep),
{
    let n = s.unicode_len();
    let mut out: Vec<String> = Vec::new();
    let mut start: usize = 0;
    let mut i: usize = 0;
    proof {
        assert(s@.subrange(0, n as int) =~= s@);
        assert(strs_view(out@) =~~= Seq::<Seq<char>>::empty());
    }
    while i < n
        invariant
            start <= i <= n,
            n == s@.len(),
            forall|k: int| start <= k < i ==> s@[k] != sep,
            split_seq(s@, sep) =~~= strs_view(out@) + split_seq(
                s@.subrange(start as int, n as int),
                sep,
            ),
        decreases n - i,
    {
        let c = s.get_char(i);
        if c == sep {
            let seg = s.substring_char(start, i).to_owned();
            proof {
                let pre = s@.subrange(start as int, i as int);
                let post = s@.subrange(i + 1, n as int);
                assert(s@.subrange(start as int, n as int) =~= pre + seq![sep] + post);
                lemma_split_seq_sep(pre, post, sep);
                assert(strs_view(out@.push(seg)) =~~= strs_view(out@).push(pre));
            }
            out.push(seg);
            start = i + 1;
        }
        i += 1;
    }
    let seg = s.substring_char(start, n).to_owned();
    proof {
        let pre = s@.subrange(start as int, n as int);
        lemma_split_seq_nosep(pre, sep);
        assert(strs_view(out@.push(seg)) =~~= strs_view(out@).push(pre));
    }
    out.push(seg);
    out
}

/// The first position at or after `i` that does not hold whitespace.
pub open spec fn ws_skip(s: Seq<char>, i: int) -> int
    decreases s.len() - i when 0 <= i <= s.len()
{
    if i < s.len() && is_ws_char(s[i]) {
        ws_skip(s, i + 1)
    } else {
        i
    }
}

/// The first position at or after `i` that holds whitespace, or the end.
pub open spec fn ws_run_end(s: Seq<char>, i: int) -> int
    decreases s.len() - i when 0 <= i <= s.len()
{
    if i < s.len() && !is_ws_char(s[i]) {
        ws_run_end(s, i + 1)
    } else {
        i
    }
}

pub proof fn lemma_ws_skip_bounds(s: Seq<char>, i: int)
    requires
        0 <= i <= s.len(),
    ensures
        i <= ws_skip(s, i) <= s.len(),
        ws_skip(s, i) == s.len() || !is_ws_char(s[ws_skip(s, i)]),
    decreases s.len() - i,
{
    if i < s.len() && is_ws_char(s[i]) {
        lemma_ws_skip_bounds(s, i + 1);
    }
}

pub proof fn lemma_ws_run_end_bounds(s: Seq<char>, i: int)
    requires
        0 <= i <= s.len(),
    ensures
        i <= ws_run_end(s, i) <= s.len(),
    decreases s.len() - i,
{
    if i < s.len() && !is_ws_char(s[i]) {
        lemma_ws_run_end_bounds(s, i + 1);
    }
}

/// The maximal whitespace-free tokens of `s` at or after position `i`.
pub open spec fn ws_tokens_from(s: Seq<char>, i: int) -> Seq<Seq<char>>
    decreases s.len() - i when 0 <= i <= s.len() via ws_tokens_from_dec
{
    let j = ws_skip(s, i);
    if j >= s.len() {
        Seq::<Seq<char>>::empty()
    } else {
        let k = ws_run_end(s, j);
        seq![s.subrange(j, k)] + ws_tokens_from(s, k)
    }
}

#[via_fn]
proof fn ws_tokens_from_dec(s: Seq<char>, i: int) {
    if 0 <= i <= s.len() {
        lemma_ws_skip_bounds(s, i);
        let j = ws_skip(s, i);
        if j < s.len() {
            lemma_ws_run_end_bounds(s, j + 1);
            assert(ws_run_end(s, j) == ws_run_end(s, j + 1));
        }
    }
}

/// The maximal whitespace-free tokens of `s`.
pub open spec fn ws_tokens(s: Seq<char>) -> Seq<Seq<char>> {
    ws_tokens_from(s, 0)
}

/// Returns true if the character is one of the whitespace separators.
pub fn ws_char(c: char) -> (r: bool)
    ensures
        r == is_ws_char(c),
{
    c == ' ' || c == '\t' || c == '\n' || c == '\r' || c == '\u{b}' || c == '\u{c}'
}

/// Splits a string into its maximal whitespace-free tokens.
pub fn whitespace_tokens(s: &str) -> (out: Vec<String>)
    ensures
        strs_view(out@) == ws_tokens(s@),
{
    let n = s.unicode_len();
    let mut out: Vec<String> = Vec::new();
    let mut i: usize = 0;
    proof {
        assert(strs_view(out@) =~~= Seq::<Seq<char>>::empty());
    }
    while i < n
        invariant
            i <= n,
            n == s@.len(),
            ws_tokens(s@) =~~= strs_view(out@) + ws_tokens_from(s@, i as int),
        decreases n - i,
    {
        let c = s.get_char(i);
        if ws_char(c) {
            i += 1;
        } else {
            let mut k = i + 1;
            while k < n
                invariant_except_break
                    i < k <= n,
                    n == s@.len(),
                    ws_run_end(s@, i as int) == ws_run_end(s@, k as int),
                ensures
                    i < k <= n,
                    n == s@.len(),
                    ws_run_end(s@, i as int) == k,
                decreases n - k,
            {
                let c2 = s.get_char(k);
                if ws_char(c2) {
                    break;
                }
                k += 1;
            }
            let token = s.substring_char(i, k).to_owned();
            proof {
                assert(ws_skip(s@, i as int) == i as int);
                assert(ws_tokens_from(s@, i as int) =~~= seq![s@.subrange(i as int, k as int)]
                    + ws_tokens_from(s@, k as int));
                assert(strs_view(out@.push(token)) =~~= strs_view(out@).push(
                    s@.subrange(i as int, k as int),
                ));
            }
            out.push(token);
            i = k;
        }
    }
    out
}

/// Holds of the segments that a path component may keep: the nonempty ones.
pub open spec fn nonempty_seg() -> spec_fn(Seq<char>) -> bool {
    |t: Seq<char>| t.len() > 0
}

/// The nonempty components of a slash-separated path.
pub open spec fn path_components(s: Seq<char>) -> Seq<Seq<char>> {
    split_seq(s, '/').filter(nonempty_seg())
}

/// Splits a path into its nonempty slash-separated components.
pub fn components(s: &str) -> (out: Vec<String>)
    ensures
        strs_view(out@) == path_components(s@),
{
    let parts = split(s, '/');
    let mut out: Vec<String> = Vec::new();
    let mut i: usize = 0;
    proof {
        assert(strs_view(parts@.subrange(0, 0)).filter(nonempty_seg()) =~~= strs_view(out@));
    }
    while i < parts.len()
        invariant
            i <= parts@.len(),
            strs_view(parts@) == split_seq(s@, '/'),
            strs_view(out@) =~~= strs_view(parts@.subrange(0, i as int)).filter(nonempty_seg()),
        decreases parts@.len() - i,
    {
        proof {
            reveal_with_fuel(Seq::filter, 2);
            let pred = nonempty_seg();
            let pre = strs_view(parts@.subrange(0, i as int));
            let cur = strs_view(parts@.subrange(0, i + 1));
            assert(cur.drop_last() =~~= pre);
            assert(cur.len() == i + 1);
            assert(cur.last() == parts@[i as int]@);
            if pred(parts@[i as int]@) {
                assert(cur.filter(pred) =~~= pre.filter(pred).push(parts@[i as int]@));
            } else {
                assert(cur.filter(pred) =~~= pre.filter(pred));
            }
        }
        if !parts[i].as_str().is_empty() {
            let item = parts[i].clone();
            proof {
                assert(strs_view(out@.push(item)) =~~= strs_view(out@).push(parts@[i as int]@));
            }
            out.push(item);
        }
        i += 1;
    }
    proof {
        assert(parts@.subrange(0, parts@.len() as int) =~= parts@);
    }
    out
}

/// Compares two string slices character by character.
pub fn str_eq(a: &str, b: &str) -> (r: bool)
    ensures
        r == (a@ == b@),
{
    let na = a.unicode_len();
    let nb = b.unicode_len();
    if na != nb {
        return false;
    }
    let mut i: usize = 0;
    while i < na
        invariant
            i <= na,
            na == a@.len(),
            na == b@.len(),
            forall|k: int| 0 <= k < i ==> a@[k] == b@[k],
        decreases na - i,
    {
        if a.get_char(i) != b.get_char(i) {
            return false;
        }
        i += 1;
    }
    proof {
        assert(a@ =~= b@);
    }
    true
}

/// The position of the last dot in a file name, or -1 if it has none.
pub open spec fn last_dot(name: Seq<char>) -> int
    decreases name.len(),
{
    if name.len() == 0 {
        -1
    } else if name.last() == '.' {
        name.len() - 1
    } else {
        last_dot(name.drop_last())
    }
}

/// The stem of a file name: what stands before its last dot, or the whole
/// name when there is no dot or only a leading one.
pub open spec fn stem_of(name: Seq<char>) -> Seq<char> {
    let d = last_dot(name);
    if d <= 0 {
        name
    } else {
        name.subrange(0, d)
    }
}

/// The extension of a file name: what stands after its last dot, absent
/// when there is no dot or only a leading one.
pub open spec fn extension_of(name: Seq<char>) -> Option<Seq<char>> {
    let d = last_dot(name);
    if d <= 0 {
        None
    } else {
        Some(name.subrange(d + 1, name.len() as int))
    }
}

pub proof fn lemma_last_dot_bounds(name: Seq<char>)
    ensures
        -1 <= last_dot(name) < name.len(),
    decreases name.len(),
{
    if name.len() > 0 && name.last() != '.' {
        lemma_last_dot_bounds(name.drop_last());
    }
}

/// Finds the position of the last dot in a file name.
fn find_last_dot(name: &str) -> (r: Option<usize>)
    ensures
        match r {
            Some(d) => last_dot(name@) == d as int,
            None => last_dot(name@) == -1,
        },
{
    let n = name.unicode_len();
    let mut k = n;
    proof {
        assert(name@.subrange(0, n as int) =~= name@);
    }
    while k > 0
        invariant
            k <= n,
            n == name@.len(),
            last_dot(name@) == last_dot(name@.subrange(0, k as int)),
        decreases k,
    {
        proof {
            let p = name@.subrange(0, k as int);
            assert(p.drop_last() =~= name@.subrange(0, k - 1));
            assert(p.last() == name@[k - 1]);
        }
        let c = name.get_char(k - 1);
        if c == '.' {
            return Some(k - 1);
        }
        k -= 1;
    }
    proof {
        assert(name@.subrange(0, 0) =~= Seq::<char>::empty());
    }
    None
}

/// Returns the stem of a file name.
pub fn stem(name: &str) -> (r: String)
    ensures
        r@ == stem_of(name@),
{
    proof {
        lemma_last_dot_bounds(name@);
    }
    match find_last_dot(name) {
        Some(d) => {
            if d == 0 {
                name.to_owned()
            } else {
                name.substring_char(0, d).to_owned()
            }
        },
        None => name.to_owned(),
    }
}

/// Returns the extension of a file name.
pub fn extension(name: &str) -> (r: Option<String>)
    ensures
        match r {
            Some(t) => extension_of(name@) == Some(t@),
            None => extension_of(name@) is None,
        },
{
    proof {
        lemma_last_dot_bounds(name@);
    }
    match find_last_dot(name) {
        Some(d) => {
            if d == 0 {
                None
            } else {
                let n = name.unicode_len();
                Some(name.substring_char(d + 1, n).to_owned())
            }
        },
        None => None,
    }
}

/// The position of the first ` - ` separator at or after `i`, if any.
pub open spec fn find_dash_from(s: Seq<char>, i: int) -> Option<int>
    decreases s.len() - i when 0 <= i
{
    if i + 3 > s.len() {
        None
    } else if s[i] == ' ' && s[i + 1] == '-' && s[i + 2] == ' ' {
        Some(i)
    } else {
        find_dash_from(s, i + 1)
    }
}

/// The first segment of a name split on ` - `: what stands before the
/// first such separator, or the whole name when there is none.
pub open spec fn first_dash_segment(s: Seq<char>) -> Seq<char> {
    match find_dash_from(s, 0) {
        Some(i) => s.subrange(0, i),
        None => s,
    }
}

/// Returns the first segment of a name split on ` - `.
pub fn dash_segment(s: &str) -> (r: String)
    ensures
        r@ == first_dash_segment(s@),
{
    let n = s.unicode_len();
    let mut i: usize = 0;
    while n >= 3 && i <= n - 3
        invariant
            i <= n,
            n == s@.len(),
            find_dash_from(s@, 0) == find_dash_from(s@, i as int),
        decreases n - i,
    {
        let c0 = s.get_char(i);
        let c1 = s.get_char(i + 1);
        let c2 = s.get_char(i + 2);
        if c0 == ' ' && c1 == '-' && c2 == ' ' {
            return s.substring_char(0, i).to_owned();
        }
        i += 1;
    }
    s.to_owned()
}

/// The name of the directory that holds the path's last component.
pub open spec fn parent_dir_name(path: Seq<char>) -> Option<Seq<char>> {
    let c = path_components(path);
    if c.len() >= 2 {
        Some(c[c.len() - 2])
    } else {
        None
    }
}

/// The stem of the path's last component.
pub open spec fn path_file_stem(path: Seq<char>) -> Option<Seq<char>> {
    let c = path_components(path);
    if c.len() >= 1 {
        Some(stem_of(c.last()))
    } else {
        None
    }
}

/// The position of the last slash in a path, or -1 if it has none.
pub open spec fn last_slash(path: Seq<char>) -> int
    decreases path.len(),
{
    if path.len() == 0 {
        -1
    } else if path.last() == '/' {
        path.len() - 1
    } else {
        last_slash(path.drop_last())
    }
}

/// The parent of a path: what stands before its last slash; a lone slash
/// for a top-level absolute path, and empty for a bare file name.
pub open spec fn parent_path(path: Seq<char>) -> Seq<char> {
    let d = last_slash(path);
    if d <= 0 {
        if d == 0 {
            seq!['/']
        } else {
            Seq::empty()
        }
    } else {
        path.subrange(0, d)
    }
}

pub proof fn lemma_last_slash_bounds(path: Seq<char>)
    ensures
        -1 <= last_slash(path) < path.len(),
    decreases path.len(),
{
    if path.len() > 0 && path.last() != '/' {
        lemma_last_slash_bounds(path.drop_last());
    }
}

/// Returns the parent of a path.
pub fn path_parent(path: &str) -> (r: String)
    ensures
        r@ == parent_path(path@),
{
    proof {
        lemma_last_slash_bounds(path@);
    }
    let n = path.unicode_len();
    let mut k = n;
    proof {
        assert(path@.subrange(0, n as int) =~= path@);
    }
    while k > 0
        invariant
            k <= n,
            n == path@.len(),
            last_slash(path@) == last_slash(path@.subrange(0, k as int)),
        decreases k,
    {
        proof {
            let p = path@.subrange(0, k as int);
            assert(p.drop_last() =~= path@.subrange(0, k - 1));
            assert(p.last() == path@[k - 1]);
        }
        let c = path.get_char(k - 1);
        if c == '/' {
            if k == 1 {
                let r = "/".to_owned();
                proof {
                    reveal_strlit("/");
                    assert(r@ =~= seq!['/']);
                }
                return r;
            }
            return path.substring_char(0, k - 1).to_owned();
        }
        k -= 1;
    }
    proof {
        assert(path@.subrange(0, 0) =~= Seq::<char>::empty());
    }
    String::new()
}

/// Lexicographic order on character sequences.
pub open spec fn lex_le(a: Seq<char>, b: Seq<char>) -> bool
    decreases a.len(),
{
    if a.len() == 0 {
        true
    } else if b.len() == 0 {
        false
    } else if a[0] != b[0] {
        a[0] < b[0]
    } else {
        lex_le(a.drop_first(), b.drop_first())
    }
}

/// The lexicographic order is reflexive.
pub proof fn lemma_lex_le_refl(a: Seq<char>)
    ensures
        lex_le(a, a),
    decreases a.len(),
{
    if a.len() > 0 {
        lemma_lex_le_refl(a.drop_first());
    }
}

/// The lexicographic order is total.
pub proof fn lemma_lex_le_total(a: Seq<char>, b: Seq<char>)
    ensures
        lex_le(a, b) || lex_le(b, a),
    decreases a.len(),
{
    if a.len() > 0 && b.len() > 0 && a[0] == b[0] {
        lemma_lex_le_total(a.drop_first(), b.drop_first());
    }
}

/// The lexicographic order is transitive.
pub proof fn lemma_lex_le_trans(a: Seq<char>, b: Seq<char>, c: Seq<char>)
    requires
        lex_le(a, b),
        lex_le(b, c),
    ensures
        lex_le(a, c),
    decreases a.len(),
{
    if a.len() > 0 && b.len() > 0 && c.len() > 0 && a[0] == b[0] && b[0] == c[0] {
        lemma_lex_le_trans(a.drop_first(), b.drop_first(), c.drop_first());
    }
}

/// Compares two string slices lexicographically.
pub fn str_le(a: &str, b: &str) -> (r: bool)
    ensures
        r == lex_le(a@, b@),
{
    let na = a.unicode_len();
    let nb = b.unicode_len();
    let mut i: usize = 0;
    proof {
        assert(a@.skip(0) =~= a@);
        assert(b@.skip(0) =~= b@);
    }
    while i < na && i < nb
        invariant
            i <= na,
            i <= nb,
            na == a@.len(),
            nb == b@.len(),
            lex_le(a@, b@) == lex_le(a@.skip(i as int), b@.skip(i as int)),
        decreases na - i,
    {
        proof {
            assert(a@.skip(i as int)[0] == a@[i as int]);
            assert(b@.skip(i as int)[0] == b@[i as int]);
            assert(a@.skip(i as int).drop_first() =~= a@.skip(i + 1));
            assert(b@.skip(i as int).drop_first() =~= b@.skip(i + 1));
        }
        let ca = a.get_char(i);
        let cb = b.get_char(i);
        if ca != cb {
            return ca < cb;
        }
        i += 1;
    }
    na <= nb
}

} // verus!
