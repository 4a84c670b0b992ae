//! The project env file format: one `KEY=VALUE` per line, blank lines and
//! lines starting with `#` ignored, keys and values trimmed.
use vstd::prelude::*;

use crate::config::EnvVars;
use crate::text::{
    find_char, find_from, lemma_find_from_bounds, lemma_find_prefix_equal, lemma_no_char_find, push_decimal, push_range, push_str,
    string_from_range, trim, trim_bounds, decimal,
};

verus! {

/// What one line of an env file does.
pub enum LineEffect {
    /// A blank line or a comment.
    Skip,
    /// `KEY=VALUE`, with key and value trimmed.
    Assign(Seq<char>, Seq<char>),
    /// Neither of the above: a line without `=`.
    Invalid,
}

/// The line starting at `p`: up to the next `\n` or the end, without the
/// `\r` of a `\r\n` ending (as `str::lines` yields it).
pub open spec fn line_at(s: Seq<char>, p: int) -> Seq<char> {
    let e = find_from(s, '\n', p);
    let raw = s.subrange(p, e);
    if e < s.len() && raw.len() > 0 && raw.last() == '\r' {
        raw.drop_last()
    } else {
        raw
    }
}

/// What the line `raw` does.
pub open spec fn line_effect(raw: Seq<char>) -> LineEffect {
    let t = trim(raw);
    if t.len() == 0 || t[0] == '#' {
        LineEffect::Skip
    } else {
        let i = find_from(t, '=', 0);
        if i == t.len() {
            LineEffect::Invalid
        } else {
            LineEffect::Assign(trim(t.subrange(0, i)), trim(t.subrange(i + 1, t.len() as int)))
        }
    }
}

/// The variables set by the lines of `s` from position `p` on, applied to
/// `acc`; the first invalid line is reported with its number (the line at
/// `p` has number `line`) and its text.
pub open spec fn env_from(s: Seq<char>, p: int, line: int, acc: Map<Seq<char>, Seq<char>>) -> Result<
    Map<Seq<char>, Seq<char>>,
    (int, Seq<char>),
>
    decreases s.len() - p,
{
    if p < 0 || p >= s.len() {
        Ok(acc)
    } else {
        let e = find_from(s, '\n', p);
        proof {
            lemma_find_from_bounds(s, '\n', p);
        }
        let next = if e < s.len() {
            e + 1
        } else {
            s.len() as int
        };
        match line_effect(line_at(s, p)) {
            LineEffect::Skip => env_from(s, next, line + 1, acc),
            LineEffect::Assign(k, v) => env_from(s, next, line + 1, acc.insert(k, v)),
            LineEffect::Invalid => Err((line, line_at(s, p))),
        }
    }
}

/// The variables that the env file text `s` sets, or its first invalid line.
pub open spec fn parsed_env(s: Seq<char>) -> Result<Map<Seq<char>, Seq<char>>, (int, Seq<char>)> {
    env_from(s, 0, 1, Map::empty())
}

/// A line of an env file that is neither blank, a comment, nor `KEY=VALUE`.
#[derive(Debug, Clone, PartialEq, Eq)]
pub struct EnvParseError {
    /// The line's number, counting from 1.
    pub line: usize,
    /// The line's text.
    pub text: String,
}

impl EnvParseError {
    pub open spec fn spec_message(&self) -> Seq<char> {
        "invalid env line "@ + decimal(self.line as nat) + ": "@ + self.text@
    }

    /// `invalid env line {line}: {text}`.
    pub fn message(&self) -> (m: String)
        ensures
            m@ == self.spec_message(),
    {
        let mut m = String::new();
        push_str(&mut m, "invalid env line ");
        push_decimal(&mut m, self.line as u64);
        push_str(&mut m, ": ");
        push_str(&mut m, self.text.as_str());
        m
    }
}

/// The position of the first `c` in `v[lo..hi]`, or `hi`.
fn find_in(v: &Vec<char>, c: char, lo: usize, hi: usize) -> (r: usize)
    requires
        lo <= hi <= v.len(),
    ensures
        r == lo + find_from(v@.subrange(lo as int, hi as int), c, 0),
        lo <= r <= hi,
{
    let ghost sub = v@.subrange(lo as int, hi as int);
    proof {
        lemma_find_from_bounds(sub, c, 0);
    }
    let mut i = lo;
    while i < hi && v[i] != c
        invariant
            lo <= i <= hi <= v.len(),
            sub == v@.subrange(lo as int, hi as int),
            find_from(sub, c, i - lo) == find_from(sub, c, 0),
        decreases hi - i,
    {
        i = i + 1;
    }
    i
}

proof fn lemma_env_from_end(s: Seq<char>, p: int, line: int, acc: Map<Seq<char>, Seq<char>>)
    requires
        p >= s.len(),
    ensures
        env_from(s, p, line, acc) == Ok::<Map<Seq<char>, Seq<char>>, (int, Seq<char>)>(acc),
{
}

/// Parses env file text into its variables; a later line for a key wins.
pub fn parse_env_text(contents: &str) -> (r: Result<EnvVars, EnvParseError>)
    ensures
        match (r, parsed_env(contents@)) {
            (Ok(m), Ok(w)) => m@ == w,
            (Err(e), Err((line, text))) => e.line == line && e.text@ == text,
            _ => false,
        },
{
    let v = crate::text::chars_of(contents);
    let n = v.len();
    let mut vars = EnvVars::new();
    let mut p: usize = 0;
    let mut index: usize = 0;
    while p < n
        invariant
            v@ == contents@,
            n == v.len(),
            p <= n,
            index <= p,
            parsed_env(contents@) == env_from(v@, p as int, index + 1, vars@),
        decreases n - p,
    {
        let e = find_char(&v, '\n', p);
        proof {
            lemma_find_from_bounds(v@, '\n', p as int);
        }
        let line_end = if e < n && e > p && v[e - 1] == '\r' {
            e - 1
        } else {
            e
        };
        assert(v@.subrange(p as int, line_end as int) == line_at(v@, p as int)) by {
            if e < n && e > p && v@[e - 1] == '\r' {
                assert(v@.subrange(p as int, e as int).drop_last() =~= v@.subrange(
                    p as int,
                    e - 1,
                ));
            }
        }
        let (a, b) = trim_bounds(&v, p, line_end);
        let ghost t = v@.subrange(a as int, b as int);
        if a == b || v[a] == '#' {
            assert(line_effect(line_at(v@, p as int)) is Skip);
        } else {
            let eq = find_in(&v, '=', a, b);
            if eq == b {
                assert(line_effect(line_at(v@, p as int)) is Invalid);
                let text = string_from_range(&v, p, line_end);
                return Err(EnvParseError { line: index + 1, text });
            }
            assert(t.subrange(0, eq - a) =~= v@.subrange(a as int, eq as int));
            assert(t.subrange(eq - a + 1, t.len() as int) =~= v@.subrange(eq + 1, b as int));
            let (ka, kb) = trim_bounds(&v, a, eq);
            let (va, vb) = trim_bounds(&v, eq + 1, b);
            let key = string_from_range(&v, ka, kb);
            let value = string_from_range(&v, va, vb);
            assert(line_effect(line_at(v@, p as int)) == LineEffect::Assign(key@, value@));
            vars.insert(key, value);
        }
        if e >= n {
            p = n;
        } else {
            p = e + 1;
        }
        index = index + 1;
    }
    proof {
        lemma_env_from_end(v@, p as int, index + 1, vars@);
    }
    Ok(vars)
}


proof fn lemma_find_shift(s: Seq<char>, t: Seq<char>, c: char, p: int)
    requires
        s.len() <= p <= s.len() + t.len(),
    ensures
        find_from(s + t, c, p) == find_from(t, c, p - s.len()) + s.len(),
    decreases s.len() + t.len() - p,
{
    if p < s.len() + t.len() {
        assert((s + t)[p] == t[p - s.len()]);
        lemma_find_shift(s, t, c, p + 1);
    }
}

proof fn lemma_find_in_prefix(s: Seq<char>, t: Seq<char>, c: char, p: int)
    requires
        0 <= p < s.len(),
        s.last() == c,
    ensures
        find_from(s + t, c, p) == find_from(s, c, p),
        find_from(s, c, p) < s.len(),
    decreases s.len() - p,
{
    assert((s + t)[p] == s[p]);
    if s[p] != c {
        lemma_find_in_prefix(s, t, c, p + 1);
    }
}

/// Reading past the end of `s` in `s + t` is reading `t`.
proof fn lemma_env_shift(
    s: Seq<char>,
    t: Seq<char>,
    p: int,
    line: int,
    acc: Map<Seq<char>, Seq<char>>,
)
    requires
        s.len() <= p,
    ensures
        env_from(s + t, p, line, acc) == env_from(t, p - s.len(), line, acc),
    decreases s.len() + t.len() - p,
{
    let u = s + t;
    if p < u.len() {
        let q = p - s.len();
        lemma_find_shift(s, t, '\n', p);
        lemma_find_from_bounds(t, '\n', q);
        let e = find_from(u, '\n', p);
        assert(u.subrange(p, e) =~= t.subrange(q, e - s.len()));
        assert(line_at(u, p) == line_at(t, q));
        let next = if e < u.len() {
            e + 1
        } else {
            u.len() as int
        };
        match line_effect(line_at(u, p)) {
            LineEffect::Skip => lemma_env_shift(s, t, next, line + 1, acc),
            LineEffect::Assign(k, v) => lemma_env_shift(s, t, next, line + 1, acc.insert(k, v)),
            LineEffect::Invalid => {},
        }
    }
}

/// Reading the lines of `s`, which ends in a newline, inside `s + t` gives
/// what reading `s` alone gives and then goes on at the start of `t`.
proof fn lemma_env_prefix(
    s: Seq<char>,
    t: Seq<char>,
    p: int,
    line: int,
    acc: Map<Seq<char>, Seq<char>>,
) -> (next_line: int)
    requires
        0 <= p <= s.len(),
        s.len() > 0 ==> s.last() == '\n',
        env_from(s, p, line, acc) is Ok,
    ensures
        env_from(s + t, p, line, acc) == env_from(s + t, s.len() as int, next_line, env_from(
            s,
            p,
            line,
            acc,
        )->Ok_0),
        next_line == line + lines_from(s, p).len(),
    decreases s.len() - p,
{
    if p >= s.len() {
        line
    } else {
        let u = s + t;
        lemma_find_in_prefix(s, t, '\n', p);
        lemma_find_from_bounds(s, '\n', p);
        let e = find_from(s, '\n', p);
        assert(u.subrange(p, e) =~= s.subrange(p, e));
        assert(line_at(u, p) == line_at(s, p));
        match line_effect(line_at(s, p)) {
            LineEffect::Skip => lemma_env_prefix(s, t, e + 1, line + 1, acc),
            LineEffect::Assign(k, v) => lemma_env_prefix(s, t, e + 1, line + 1, acc.insert(k, v)),
            LineEffect::Invalid => line,
        }
    }
}

proof fn lemma_trim_unchanged(s: Seq<char>)
    requires
        s.len() > 0,
        !crate::text::is_space(s[0]),
        !crate::text::is_space(s.last()),
    ensures
        trim(s) == s,
{
}


/// A single `KEY=VALUE` line applied on top of `acc`.
proof fn lemma_single_assignment(
    k: Seq<char>,
    v: Seq<char>,
    line: int,
    acc: Map<Seq<char>, Seq<char>>,
)
    requires
        k.len() > 0,
        trim(k) == k,
        k[0] != '#',
        !k.contains('='),
        !k.contains('\n'),
        trim(v) == v,
        !v.contains('\n'),
    ensures
        env_from(k + seq!['='] + v + seq!['\n'], 0, line, acc) == Ok::<
            Map<Seq<char>, Seq<char>>,
            (int, Seq<char>),
        >(acc.insert(k, v)),
{
    let raw = k + seq!['='] + v;
    let t = raw + seq!['\n'];
    assert(!raw.contains('\n')) by {
        assert forall|i: int| 0 <= i < raw.len() implies raw[i] != '\n' by {
            if i < k.len() {
                assert(raw[i] == k[i]);
            } else if i > k.len() {
                assert(raw[i] == v[i - k.len() - 1]);
            }
        }
    }
    lemma_no_char_find(raw, '\n', 0);
    assert forall|j: int| 0 <= j < raw.len() implies t[j] != '\n' by {
        assert(t[j] == raw[j]);
    }
    assert(find_from(t, '\n', 0) == raw.len()) by {
        assert forall|j: int| 0 <= j < raw.len() implies (t[j] == raw[j]) by {}
        lemma_find_prefix_equal(raw, t, '\n', 0);
    }
    assert(t.subrange(0, raw.len() as int) =~= raw);
    // k is not blank, so its first character is not whitespace; the same for
    // the last character of v, or '=' ends the line when v is empty.
    lemma_trim_start_first(k);
    assert(raw[0] == k[0]);
    assert(raw.last() != '\r' && !crate::text::is_space(raw.last())) by {
        if v.len() > 0 {
            assert(raw.last() == v.last());
            lemma_trim_end_last(v);
        } else {
            assert(raw.last() == '=');
        }
    }
    assert(line_at(t, 0) == raw);
    lemma_trim_unchanged(raw);
    lemma_no_char_find(k, '=', 0);
    assert(raw[k.len() as int] == '=');
    lemma_find_prefix_equal(k, raw, '=', 0);
    assert(raw.subrange(0, k.len() as int) =~= k);
    assert(raw.subrange(k.len() as int + 1, raw.len() as int) =~= v);
    assert(line_effect(raw) == LineEffect::Assign(k, v));
    lemma_env_from_end(t, t.len() as int, line + 1, acc.insert(k, v));
}


proof fn lemma_trim_start_first(s: Seq<char>)
    requires
        s.len() > 0,
        trim(s) == s,
    ensures
        !crate::text::is_space(s[0]),
{
    lemma_trim_start_len(s);
    lemma_trim_end_len(crate::text::trim_start(s));
}

proof fn lemma_trim_end_last(s: Seq<char>)
    requires
        s.len() > 0,
        trim(s) == s,
    ensures
        !crate::text::is_space(s.last()),
{
    lemma_trim_start_len(s);
    lemma_trim_end_len(crate::text::trim_start(s));
    if crate::text::is_space(s.last()) {
        if crate::text::trim_start(s) == s {
            assert(crate::text::trim_end(s) == crate::text::trim_end(s.drop_last()));
            lemma_trim_end_len(s.drop_last());
        }
    }
}

proof fn lemma_trim_start_len(s: Seq<char>)
    ensures
        crate::text::trim_start(s).len() <= s.len(),
        crate::text::trim_start(s).len() == s.len() ==> crate::text::trim_start(s) == s,
        s.len() > 0 && crate::text::is_space(s[0]) ==> crate::text::trim_start(s).len() < s.len(),
    decreases s.len(),
{
    if s.len() > 0 && crate::text::is_space(s[0]) {
        lemma_trim_start_len(s.drop_first());
    }
}

proof fn lemma_trim_end_len(s: Seq<char>)
    ensures
        crate::text::trim_end(s).len() <= s.len(),
        s.len() > 0 && crate::text::is_space(s.last()) ==> crate::text::trim_end(s).len() < s.len(),
    decreases s.len(),
{
    if s.len() > 0 && crate::text::is_space(s.last()) {
        lemma_trim_end_len(s.drop_last());
    }
}

/// Writing `KEY=VALUE` as a new last line of an env file that reads without
/// error makes the file read back with KEY set to VALUE and every other
/// variable unchanged. KEY and VALUE carry no surrounding whitespace and no
/// newline, KEY holds no `=` and does not start a comment.
pub proof fn law_appended_assignment_reads_back(s: Seq<char>, key: Seq<char>, value: Seq<char>)
    requires
        parsed_env(s) is Ok,
        s.len() > 0 ==> s.last() == '\n',
        key.len() > 0,
        trim(key) == key,
        key[0] != '#',
        !key.contains('='),
        !key.contains('\n'),
        trim(value) == value,
        !value.contains('\n'),
    ensures
        parsed_env(s + (key + seq!['='] + value + seq!['\n'])) == Ok::<
            Map<Seq<char>, Seq<char>>,
            (int, Seq<char>),
        >(parsed_env(s)->Ok_0.insert(key, value)),
{
    let t = key + seq!['='] + value + seq!['\n'];
    let m = parsed_env(s)->Ok_0;
    let line = lemma_env_prefix(s, t, 0, 1, Map::empty());
    lemma_env_shift(s, t, s.len() as int, line, m);
    lemma_single_assignment(key, value, line, m);
}

/// A comment line added at the end of an env file changes nothing it sets.
pub proof fn law_appended_comment_is_ignored(s: Seq<char>, comment: Seq<char>)
    requires
        parsed_env(s) is Ok,
        s.len() > 0 ==> s.last() == '\n',
        !comment.contains('\n'),
    ensures
        parsed_env(s + (seq!['#'] + comment + seq!['\n'])) == parsed_env(s),
{
    let raw = seq!['#'] + comment;
    let t = raw + seq!['\n'];
    let m = parsed_env(s)->Ok_0;
    let line = lemma_env_prefix(s, t, 0, 1, Map::empty());
    lemma_env_shift(s, t, s.len() as int, line, m);
    assert(!raw.contains('\n')) by {
        assert forall|i: int| 0 <= i < raw.len() implies raw[i] != '\n' by {
            if i > 0 {
                assert(raw[i] == comment[i - 1]);
            }
        }
    }
    lemma_no_char_find(raw, '\n', 0);
    lemma_find_prefix_equal(raw, t, '\n', 0);
    assert(t[raw.len() as int] == '\n');
    assert(find_from(t, '\n', 0) == raw.len());
    assert(t.subrange(0, raw.len() as int) =~= raw);
    let l = line_at(t, 0);
    assert(l == raw || l == raw.drop_last());
    assert(l.len() > 0 && l[0] == '#');
    assert(trim(l) == crate::text::trim_end(l));
    lemma_trim_end_keeps_first(l);
    assert(line_effect(l) is Skip);
    lemma_env_from_end(t, t.len() as int, line + 1, m);
}

proof fn lemma_trim_end_keeps_first(s: Seq<char>)
    requires
        s.len() > 0,
        !crate::text::is_space(s[0]),
    ensures
        crate::text::trim_end(s).len() > 0,
        crate::text::trim_end(s)[0] == s[0],
    decreases s.len(),
{
    if crate::text::is_space(s.last()) {
        assert(s.len() > 1);
        assert(s.drop_last()[0] == s[0]);
        lemma_trim_end_keeps_first(s.drop_last());
    }
}

/// A key and value that an env file line `KEY=VALUE` carries unchanged:
/// the key is not empty, starts no comment and holds no `=`, and neither
/// holds a newline or surrounding whitespace.
pub open spec fn plain_entry(key: Seq<char>, value: Seq<char>) -> bool {
    &&& key.len() > 0
    &&& trim(key) == key
    &&& key[0] != '#'
    &&& !key.contains('=')
    &&& !key.contains('\n')
    &&& trim(value) == value
    &&& !value.contains('\n')
}

/// The env file text with one `KEY=VALUE` line per entry, in order.
pub open spec fn env_text(entries: Seq<(Seq<char>, Seq<char>)>) -> Seq<char>
    decreases entries.len(),
{
    if entries.len() == 0 {
        Seq::empty()
    } else {
        env_text(entries.drop_last()) + (entries.last().0 + seq!['='] + entries.last().1 + seq![
            '\n',
        ])
    }
}

/// The variables the entries set, a later entry for a key replacing an
/// earlier one.
pub open spec fn env_map(entries: Seq<(Seq<char>, Seq<char>)>) -> Map<Seq<char>, Seq<char>>
    decreases entries.len(),
{
    if entries.len() == 0 {
        Map::empty()
    } else {
        env_map(entries.drop_last()).insert(entries.last().0, entries.last().1)
    }
}

/// An env file written as one `KEY=VALUE` line per entry, in any order,
/// reads back as the variables the entries set, the last line for a key
/// winning.
pub proof fn law_written_env_reads_back(entries: Seq<(Seq<char>, Seq<char>)>)
    requires
        forall|i: int| 0 <= i < entries.len() ==> plain_entry(#[trigger] entries[i].0, entries[i].1),
    ensures
        parsed_env(env_text(entries)) == Ok::<Map<Seq<char>, Seq<char>>, (int, Seq<char>)>(
            env_map(entries),
        ),
    decreases entries.len(),
{
    if entries.len() == 0 {
        lemma_env_from_end(env_text(entries), 0, 1, Map::empty());
    } else {
        let pre = entries.drop_last();
        assert forall|i: int| 0 <= i < pre.len() implies plain_entry(
            #[trigger] pre[i].0,
            pre[i].1,
        ) by {
            assert(pre[i] == entries[i]);
        }
        law_written_env_reads_back(pre);
        let s = env_text(pre);
        let (k, v) = entries.last();
        assert(plain_entry(entries[entries.len() - 1].0, entries[entries.len() - 1].1));
        if s.len() > 0 {
            assert(pre.len() > 0);
            let t = pre.last().0 + seq!['='] + pre.last().1 + seq!['\n'];
            assert(s == env_text(pre.drop_last()) + t);
            assert(s.last() == t.last());
        }
        law_appended_assignment_reads_back(s, k, v);
    }
}

/// The lines of `s` from position `p` on, as `str::lines` yields them.
pub open spec fn lines_from(s: Seq<char>, p: int) -> Seq<Seq<char>>
    decreases s.len() - p,
{
    if p < 0 || p >= s.len() {
        Seq::empty()
    } else {
        let e = find_from(s, '\n', p);
        proof {
            lemma_find_from_bounds(s, '\n', p);
        }
        let next = if e < s.len() {
            e + 1
        } else {
            s.len() as int
        };
        seq![line_at(s, p)] + lines_from(s, next)
    }
}

/// Reading from `p` fails exactly when one of the lines from there on is
/// invalid, and then it reports the first of them.
proof fn lemma_env_error_lines(s: Seq<char>, p: int, line: int, acc: Map<Seq<char>, Seq<char>>)
    requires
        0 <= p,
    ensures
        env_from(s, p, line, acc) is Err <==> exists|i: int|
            0 <= i < lines_from(s, p).len() && #[trigger] line_effect(lines_from(s, p)[i])
                is Invalid,
        env_from(s, p, line, acc) is Err ==> ({
            let (n, l) = env_from(s, p, line, acc)->Err_0;
            let ls = lines_from(s, p);
            &&& 0 <= n - line < ls.len()
            &&& l == ls[n - line]
            &&& line_effect(ls[n - line]) is Invalid
            &&& forall|j: int| 0 <= j < n - line ==> !(#[trigger] line_effect(ls[j]) is Invalid)
        }),
    decreases s.len() - p,
{
    if p < s.len() {
        let e = find_from(s, '\n', p);
        lemma_find_from_bounds(s, '\n', p);
        let next = if e < s.len() {
            e + 1
        } else {
            s.len() as int
        };
        let ls = lines_from(s, p);
        let rest = lines_from(s, next);
        assert(ls == seq![line_at(s, p)] + rest);
        assert(ls[0] == line_at(s, p));
        assert forall|i: int| 0 <= i < rest.len() implies ls[i + 1] == rest[i] by {}
        match line_effect(line_at(s, p)) {
            LineEffect::Invalid => {},
            LineEffect::Skip => {
                lemma_env_error_lines(s, next, line + 1, acc);
                if exists|i: int| 0 <= i < ls.len() && #[trigger] line_effect(ls[i]) is Invalid {
                    let i = choose|i: int| 0 <= i < ls.len() && #[trigger] line_effect(ls[i]) is Invalid;
                    assert(i > 0);
                    assert(line_effect(rest[i - 1]) is Invalid);
                }
                if exists|i: int| 0 <= i < rest.len() && #[trigger] line_effect(rest[i]) is Invalid {
                    let i = choose|i: int| 0 <= i < rest.len() && #[trigger] line_effect(rest[i]) is Invalid;
                    assert(line_effect(ls[i + 1]) is Invalid);
                }
                if env_from(s, p, line, acc) is Err {
                    let (n, l) = env_from(s, p, line, acc)->Err_0;
                    assert forall|j: int| 0 <= j < n - line implies !(#[trigger] line_effect(ls[j]) is Invalid) by {
                        if j > 0 {
                            assert(ls[j] == rest[j - 1]);
                        }
                    }
                }
            },
            LineEffect::Assign(k, v) => {
                lemma_env_error_lines(s, next, line + 1, acc.insert(k, v));
                if exists|i: int| 0 <= i < ls.len() && #[trigger] line_effect(ls[i]) is Invalid {
                    let i = choose|i: int| 0 <= i < ls.len() && #[trigger] line_effect(ls[i]) is Invalid;
                    assert(i > 0);
                    assert(line_effect(rest[i - 1]) is Invalid);
                }
                if exists|i: int| 0 <= i < rest.len() && #[trigger] line_effect(rest[i]) is Invalid {
                    let i = choose|i: int| 0 <= i < rest.len() && #[trigger] line_effect(rest[i]) is Invalid;
                    assert(line_effect(ls[i + 1]) is Invalid);
                }
                if env_from(s, p, line, acc) is Err {
                    let (n, l) = env_from(s, p, line, acc)->Err_0;
                    assert forall|j: int| 0 <= j < n - line implies !(#[trigger] line_effect(ls[j]) is Invalid) by {
                        if j > 0 {
                            assert(ls[j] == rest[j - 1]);
                        }
                    }
                }
            },
        }
    }
}

/// Env file text fails to read exactly when one of its lines is neither
/// blank, a comment, nor `KEY=VALUE`; the error then names the first such
/// line by its number (from 1) and its text.
pub proof fn law_env_error_is_first_invalid_line(s: Seq<char>)
    ensures
        parsed_env(s) is Err <==> exists|i: int|
            0 <= i < lines_from(s, 0).len() && #[trigger] line_effect(lines_from(s, 0)[i])
                is Invalid,
        parsed_env(s) is Err ==> ({
            let (n, l) = parsed_env(s)->Err_0;
            let ls = lines_from(s, 0);
            &&& 1 <= n <= ls.len()
            &&& l == ls[n - 1]
            &&& line_effect(ls[n - 1]) is Invalid
            &&& forall|j: int| 0 <= j < n - 1 ==> !(#[trigger] line_effect(ls[j]) is Invalid)
        }),
{
    lemma_env_error_lines(s, 0, 1, Map::empty());
}

/// Text made of whitespace only trims to nothing.
proof fn lemma_blank_trims_away(w: Seq<char>)
    requires
        forall|i: int| 0 <= i < w.len() ==> crate::text::is_space(#[trigger] w[i]),
    ensures
        trim(w).len() == 0,
    decreases w.len(),
{
    if w.len() > 0 {
        assert forall|i: int| 0 <= i < w.drop_first().len() implies crate::text::is_space(
            #[trigger] w.drop_first()[i],
        ) by {
            assert(w.drop_first()[i] == w[i + 1]);
        }
        lemma_blank_trims_away(w.drop_first());
        assert(crate::text::trim_start(w) == crate::text::trim_start(w.drop_first()));
    }
}

/// A line holding nothing but whitespace, added at the end of an env file,
/// changes nothing it reads to: neither the variables nor the first error.
pub proof fn law_appended_blank_line_is_ignored(s: Seq<char>, w: Seq<char>)
    requires
        s.len() > 0 ==> s.last() == '\n',
        forall|i: int| 0 <= i < w.len() ==> crate::text::is_space(#[trigger] w[i]),
        !w.contains('\n'),
    ensures
        parsed_env(s + (w + seq!['\n'])) == parsed_env(s),
{
    let t = w + seq!['\n'];
    lemma_no_char_find(w, '\n', 0);
    lemma_find_prefix_equal(w, t, '\n', 0);
    assert(t[w.len() as int] == '\n');
    assert(find_from(t, '\n', 0) == w.len());
    assert(t.subrange(0, w.len() as int) =~= w);
    let l = line_at(t, 0);
    assert(l == w || l == w.drop_last());
    assert forall|i: int| 0 <= i < l.len() implies crate::text::is_space(#[trigger] l[i]) by {
        assert(l[i] == w[i]);
    }
    lemma_blank_trims_away(l);
    assert(line_effect(l) is Skip);
    if parsed_env(s) is Ok {
        let m = parsed_env(s)->Ok_0;
        let line = lemma_env_prefix(s, t, 0, 1, Map::empty());
        lemma_env_shift(s, t, s.len() as int, line, m);
        lemma_env_from_end(t, t.len() as int, line + 1, m);
    } else {
        lemma_env_error_kept(s, t, 0, 1, Map::empty());
    }
}

/// Text after a last newline does not change the first error of what
/// comes before it.
proof fn lemma_env_error_kept(
    s: Seq<char>,
    t: Seq<char>,
    p: int,
    line: int,
    acc: Map<Seq<char>, Seq<char>>,
)
    requires
        0 <= p <= s.len(),
        s.len() > 0 ==> s.last() == '\n',
        env_from(s, p, line, acc) is Err,
    ensures
        env_from(s + t, p, line, acc) == env_from(s, p, line, acc),
    decreases s.len() - p,
{
    if p < s.len() {
        let u = s + t;
        lemma_find_in_prefix(s, t, '\n', p);
        lemma_find_from_bounds(s, '\n', p);
        let e = find_from(s, '\n', p);
        assert(u.subrange(p, e) =~= s.subrange(p, e));
        assert(line_at(u, p) == line_at(s, p));
        match line_effect(line_at(s, p)) {
            LineEffect::Skip => lemma_env_error_kept(s, t, e + 1, line + 1, acc),
            LineEffect::Assign(k, v) => lemma_env_error_kept(s, t, e + 1, line + 1, acc.insert(k, v)),
            LineEffect::Invalid => {},
        }
    }
}

/// What reading from `p` gives when lines are counted from `line + d`
/// instead of `line`: the same variables, or the same error `d` lines later.
proof fn lemma_env_line_shift(s: Seq<char>, p: int, line: int, d: int, acc: Map<Seq<char>, Seq<char>>)
    ensures
        env_from(s, p, line + d, acc) == match env_from(s, p, line, acc) {
            Ok(m) => Ok::<Map<Seq<char>, Seq<char>>, (int, Seq<char>)>(m),
            Err((n, l)) => Err((n + d, l)),
        },
    decreases s.len() - p,
{
    if 0 <= p < s.len() {
        let e = find_from(s, '\n', p);
        lemma_find_from_bounds(s, '\n', p);
        let next = if e < s.len() {
            e + 1
        } else {
            s.len() as int
        };
        match line_effect(line_at(s, p)) {
            LineEffect::Skip => lemma_env_line_shift(s, next, line + 1, d, acc),
            LineEffect::Assign(k, v) => lemma_env_line_shift(s, next, line + 1, d, acc.insert(k, v)),
            LineEffect::Invalid => {},
        }
    }
}

/// A line holding nothing but whitespace, inserted after lines that read
/// without error, changes nothing the file reads to, except that an error
/// in the lines after it is reported one line later.
pub proof fn law_inserted_blank_line_is_ignored(s: Seq<char>, w: Seq<char>, t: Seq<char>)
    requires
        parsed_env(s) is Ok,
        s.len() > 0 ==> s.last() == '\n',
        forall|i: int| 0 <= i < w.len() ==> crate::text::is_space(#[trigger] w[i]),
        !w.contains('\n'),
    ensures
        parsed_env(s + (w + seq!['\n']) + t) == match parsed_env(s + t) {
            Ok(m) => Ok::<Map<Seq<char>, Seq<char>>, (int, Seq<char>)>(m),
            Err((n, l)) => Err((n + 1, l)),
        },
{
    let b = w + seq!['\n'];
    let bt = b + t;
    assert(s + b + t =~= s + bt);
    let m = parsed_env(s)->Ok_0;
    let line = lemma_env_prefix(s, bt, 0, 1, Map::empty());
    lemma_env_shift(s, bt, s.len() as int, line, m);
    let line2 = lemma_env_prefix(s, t, 0, 1, Map::empty());
    lemma_env_shift(s, t, s.len() as int, line2, m);
    assert(line2 == line);
    lemma_no_char_find(w, '\n', 0);
    lemma_find_prefix_equal(w, bt, '\n', 0);
    assert(bt[w.len() as int] == '\n');
    assert(find_from(bt, '\n', 0) == w.len());
    assert(bt.subrange(0, w.len() as int) =~= w);
    let l = line_at(bt, 0);
    assert(l == w || l == w.drop_last());
    assert forall|i: int| 0 <= i < l.len() implies crate::text::is_space(#[trigger] l[i]) by {
        assert(l[i] == w[i]);
    }
    lemma_blank_trims_away(l);
    assert(line_effect(l) is Skip);
    lemma_env_shift(b, t, b.len() as int, line + 1, m);
    lemma_env_line_shift(t, 0, line, 1, m);
}

/// Whitespace other than line breaks, as may pad a line.
pub open spec fn padding(w: Seq<char>) -> bool {
    &&& forall|i: int| 0 <= i < w.len() ==> crate::text::is_space(#[trigger] w[i])
    &&& !w.contains('\n')
    &&& !w.contains('\r')
}

proof fn lemma_trim_start_skips(w: Seq<char>, x: Seq<char>)
    requires
        forall|i: int| 0 <= i < w.len() ==> crate::text::is_space(#[trigger] w[i]),
    ensures
        crate::text::trim_start(w + x) == crate::text::trim_start(x),
    decreases w.len(),
{
    if w.len() > 0 {
        assert((w + x)[0] == w[0]);
        assert((w + x).drop_first() =~= w.drop_first() + x);
        assert forall|i: int| 0 <= i < w.drop_first().len() implies crate::text::is_space(
            #[trigger] w.drop_first()[i],
        ) by {
            assert(w.drop_first()[i] == w[i + 1]);
        }
        lemma_trim_start_skips(w.drop_first(), x);
    } else {
        assert(w + x =~= x);
    }
}

proof fn lemma_trim_end_skips(x: Seq<char>, w: Seq<char>)
    requires
        forall|i: int| 0 <= i < w.len() ==> crate::text::is_space(#[trigger] w[i]),
    ensures
        crate::text::trim_end(x + w) == crate::text::trim_end(x),
    decreases w.len(),
{
    if w.len() > 0 {
        assert((x + w).last() == w.last());
        assert((x + w).drop_last() =~= x + w.drop_last());
        assert forall|i: int| 0 <= i < w.drop_last().len() implies crate::text::is_space(
            #[trigger] w.drop_last()[i],
        ) by {
            assert(w.drop_last()[i] == w[i]);
        }
        lemma_trim_end_skips(x, w.drop_last());
    } else {
        assert(x + w =~= x);
    }
}

/// `key + b` trims to `key`, and `c + value` trims to `value`.
proof fn lemma_padded_parts(key: Seq<char>, b: Seq<char>, c: Seq<char>, value: Seq<char>)
    requires
        key.len() > 0,
        trim(key) == key,
        trim(value) == value,
        padding(b),
        padding(c),
    ensures
        trim(key + b) == key,
        trim(c + value) == value,
{
    lemma_trim_start_first(key);
    lemma_trim_end_last(key);
    assert((key + b)[0] == key[0]);
    assert(crate::text::trim_start(key + b) == key + b);
    lemma_trim_end_skips(key, b);
    lemma_trim_start_skips(c, value);
    if value.len() > 0 {
        lemma_trim_start_first(value);
        lemma_trim_end_last(value);
    }
}

/// A `KEY=VALUE` line padded with whitespace around the key, the `=` and
/// the value, added at the end of an env file that reads without error,
/// sets the bare key to the bare value: keys and values are trimmed.
pub proof fn law_padded_assignment_reads_back(
    s: Seq<char>,
    key: Seq<char>,
    value: Seq<char>,
    a: Seq<char>,
    b: Seq<char>,
    c: Seq<char>,
    d: Seq<char>,
)
    requires
        parsed_env(s) is Ok,
        s.len() > 0 ==> s.last() == '\n',
        plain_entry(key, value),
        padding(a),
        padding(b),
        padding(c),
        padding(d),
    ensures
        parsed_env(s + (a + key + b + seq!['='] + c + value + d + seq!['\n'])) == Ok::<
            Map<Seq<char>, Seq<char>>,
            (int, Seq<char>),
        >(parsed_env(s)->Ok_0.insert(key, value)),
{
    let core = key + b + seq!['='] + c + value;
    let raw = a + (core + d);
    let t = raw + seq!['\n'];
    assert(a + key + b + seq!['='] + c + value + d + seq!['\n'] =~= t);
    let m = parsed_env(s)->Ok_0;
    let line = lemma_env_prefix(s, t, 0, 1, Map::empty());
    lemma_env_shift(s, t, s.len() as int, line, m);
    lemma_trim_start_first(key);
    lemma_trim_end_last(key);
    // The line has no line break inside.
    assert(!raw.contains('\n')) by {
        assert forall|i: int| 0 <= i < raw.len() implies raw[i] != '\n' by {
            let i1 = a.len() as int;
            let i2 = i1 + key.len();
            let i3 = i2 + b.len();
            let i4 = i3 + 1;
            let i5 = i4 + c.len();
            let i6 = i5 + value.len();
            if i < i1 {
                assert(raw[i] == a[i]);
            } else if i < i2 {
                assert(raw[i] == key[i - i1]);
            } else if i < i3 {
                assert(raw[i] == b[i - i2]);
            } else if i < i4 {
                assert(raw[i] == '=');
            } else if i < i5 {
                assert(raw[i] == c[i - i4]);
            } else if i < i6 {
                assert(raw[i] == value[i - i5]);
            } else {
                assert(raw[i] == d[i - i6]);
            }
        }
    }
    lemma_no_char_find(raw, '\n', 0);
    lemma_find_prefix_equal(raw, t, '\n', 0);
    assert(t[raw.len() as int] == '\n');
    assert(find_from(t, '\n', 0) == raw.len());
    assert(t.subrange(0, raw.len() as int) =~= raw);
    // Its last character is no carriage return.
    assert(raw.last() != '\r') by {
        if d.len() > 0 {
            assert(raw.last() == d.last());
            assert(d[d.len() - 1] == d.last());
        } else if value.len() > 0 {
            assert(raw.last() == value.last());
            lemma_trim_end_last(value);
        } else if c.len() > 0 {
            assert(raw.last() == c.last());
            assert(c[c.len() - 1] == c.last());
        } else {
            assert(raw.last() == '=');
        }
    }
    assert(line_at(t, 0) == raw);
    // The trimmed line is `key + b + '=' + c + value` without trailing space.
    lemma_trim_start_skips(a, core + d);
    assert((core + d)[0] == key[0]);
    assert(crate::text::trim_start(core + d) == core + d);
    lemma_trim_end_skips(core, d);
    let kb = key + b + seq!['='];
    let tt = if value.len() > 0 {
        core
    } else {
        kb
    };
    if value.len() > 0 {
        lemma_trim_end_last(value);
        assert(core.last() == value.last());
    } else {
        assert(core =~= kb + c);
        lemma_trim_end_skips(kb, c);
        assert(kb.last() == '=');
    }
    assert(trim(raw) == tt);
    assert(tt.len() > 0 && tt[0] == key[0]);
    // The first `=` follows the key and its padding.
    let eq: int = (key.len() + b.len()) as int;
    let kb0 = key + b;
    assert(!kb0.contains('=')) by {
        assert forall|i: int| 0 <= i < kb0.len() implies kb0[i] != '=' by {
            if i < key.len() {
                assert(kb0[i] == key[i]);
            } else {
                assert(kb0[i] == b[i - key.len()]);
                assert(crate::text::is_space(b[i - key.len()]));
            }
        }
    }
    lemma_no_char_find(kb0, '=', 0);
    assert forall|j: int| 0 <= j < kb0.len() implies tt[j] == kb0[j] by {}
    lemma_find_prefix_equal(kb0, tt, '=', 0);
    assert(tt[eq] == '=');
    assert(find_from(tt, '=', 0) == eq);
    assert(tt.subrange(0, eq) =~= kb0);
    lemma_padded_parts(key, b, c, value);
    if value.len() > 0 {
        assert(tt.subrange(eq + 1, tt.len() as int) =~= c + value);
    } else {
        assert(tt.subrange(eq + 1, tt.len() as int) =~= Seq::<char>::empty());
        assert(value =~= Seq::<char>::empty());
    }
    assert(line_effect(raw) == LineEffect::Assign(key, value));
    lemma_env_from_end(t, t.len() as int, line + 1, m.insert(key, value));
}

/// A comment line, indented or not, added at the end of an env file
/// changes nothing it reads to.
pub proof fn law_indented_comment_is_ignored(s: Seq<char>, a: Seq<char>, comment: Seq<char>)
    requires
        s.len() > 0 ==> s.last() == '\n',
        padding(a),
        !comment.contains('\n'),
    ensures
        parsed_env(s + (a + seq!['#'] + comment + seq!['\n'])) == parsed_env(s),
{
    let hc = seq!['#'] + comment;
    let raw = a + hc;
    let t = raw + seq!['\n'];
    assert(a + seq!['#'] + comment + seq!['\n'] =~= t);
    assert(!raw.contains('\n')) by {
        assert forall|i: int| 0 <= i < raw.len() implies raw[i] != '\n' by {
            if i < a.len() {
                assert(raw[i] == a[i]);
            } else if i > a.len() {
                assert(raw[i] == comment[i - a.len() - 1]);
            }
        }
    }
    lemma_no_char_find(raw, '\n', 0);
    lemma_find_prefix_equal(raw, t, '\n', 0);
    assert(t[raw.len() as int] == '\n');
    assert(find_from(t, '\n', 0) == raw.len());
    assert(t.subrange(0, raw.len() as int) =~= raw);
    let l = line_at(t, 0);
    assert(l == raw || l == raw.drop_last());
    // The line is the padding, then `#`, then the rest of the comment.
    let rest = if l == raw {
        hc
    } else {
        hc.drop_last()
    };
    if l != raw {
        assert(raw.last() == '\r');
        assert(raw.last() == hc.last());
        assert(hc.len() > 1) by {
            if hc.len() == 1 {
                assert(hc.last() == '#');
            }
        }
    }
    assert(l =~= a + rest);
    assert(rest.len() > 0 && rest[0] == '#');
    lemma_trim_start_skips(a, rest);
    assert(crate::text::trim_start(rest) == rest);
    lemma_trim_end_keeps_first(rest);
    assert(line_effect(l) is Skip);
    if parsed_env(s) is Ok {
        let m = parsed_env(s)->Ok_0;
        let line = lemma_env_prefix(s, t, 0, 1, Map::empty());
        lemma_env_shift(s, t, s.len() as int, line, m);
        lemma_env_from_end(t, t.len() as int, line + 1, m);
    } else {
        lemma_env_error_kept(s, t, 0, 1, Map::empty());
    }
}

} // verus!
