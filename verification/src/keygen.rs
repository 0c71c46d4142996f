//! Generation of the `key_constant!` table from a parsed list of keys.

use vstd::prelude::*;
use vstd::string::StringExecFns;

verus! {

/// Whether `c` is one of the whitespace characters that C header comments
/// carry.
pub open spec fn is_space_char(c: char) -> bool {
    c == ' ' || c == '\t' || c == '\n' || c == '\u{0B}' || c == '\u{0C}' || c == '\r'
}

/// `s` without its leading whitespace.
pub open spec fn spec_trim_start(s: Seq<char>) -> Seq<char>
    decreases s.len(),
{
    if s.len() > 0 && is_space_char(s[0]) {
        spec_trim_start(s.drop_first())
    } else {
        s
    }
}

/// `s` without its trailing whitespace.
pub open spec fn spec_trim_end(s: Seq<char>) -> Seq<char>
    decreases s.len(),
{
    if s.len() > 0 && is_space_char(s.last()) {
        spec_trim_end(s.drop_last())
    } else {
        s
    }
}

/// `s` without leading and trailing whitespace.
pub open spec fn spec_trim(s: Seq<char>) -> Seq<char> {
    spec_trim_end(spec_trim_start(s))
}

/// The text of a header comment: trimmed, and with a comment terminator
/// stripped off the end and trimmed again where one stands.
pub open spec fn spec_trim_comment(s: Seq<char>) -> Seq<char> {
    let t = spec_trim(s);
    if t.len() >= 2 && t[t.len() - 2] == '*' && t[t.len() - 1] == '/' {
        spec_trim(t.take(t.len() - 2))
    } else {
        t
    }
}

/// `s` with leading and trailing whitespace removed, exactly as
/// [`spec_trim`] describes.
fn trim_chars<'a>(s: &'a str) -> (r: &'a str)
    ensures
        r@ == spec_trim(s@),
{
    let n = vstd::string::StrSliceExecFns::unicode_len(s);
    proof {
        assert(s@.skip(0) =~= s@);
    }
    let mut i: usize = 0;
    while i < n && is_space(vstd::string::StrSliceExecFns::get_char(s, i))
        invariant
            i <= n,
            n == s@.len(),
            spec_trim_start(s@) == spec_trim_start(s@.skip(i as int)),
            forall|k: int| 0 <= k < i ==> is_space_char(#[trigger] s@[k]),
        decreases n - i,
    {
        proof {
            assert(s@.skip(i as int).drop_first() =~= s@.skip(i + 1));
        }
        i = i + 1;
    }
    proof {
        assert(spec_trim_start(s@.skip(i as int)) == s@.skip(i as int));
    }
    proof {
        assert(s@.skip(i as int).take(n - i) =~= s@.skip(i as int));
    }
    let mut j: usize = n;
    while j > i && is_space(vstd::string::StrSliceExecFns::get_char(s, j - 1))
        invariant
            i <= j <= n,
            n == s@.len(),
            spec_trim_start(s@) == s@.skip(i as int),
            spec_trim_end(s@.skip(i as int)) == spec_trim_end(
                s@.skip(i as int).take(j - i),
            ),
        decreases j,
    {
        proof {
            let u = s@.skip(i as int);
            assert(u.take(j - i).last() == s@[j - 1]);
            assert(u.take(j - i).drop_last() =~= u.take(j - 1 - i));
        }
        j = j - 1;
    }
    proof {
        let u = s@.skip(i as int);
        if j > i {
            assert(u.take(j - i).last() == s@[j - 1]);
        }
        assert(spec_trim_end(u.take(j - i)) == u.take(j - i));
        assert(u.take(j - i) =~= s@.subrange(i as int, j as int));
    }
    vstd::string::StrSliceExecFns::substring_char(s, i, j)
}

fn is_space(c: char) -> (r: bool)
    ensures
        r == is_space_char(c),
{
    c == ' ' || c == '\t' || c == '\n' || c == '\u{0B}' || c == '\u{0C}' || c == '\r'
}

/// Trim a header comment, stripping the comment terminator that ends a
/// single-line comment, exactly as [`spec_trim_comment`] describes.
pub fn trim_comment(comment: &str) -> (r: String)
    ensures
        r@ == spec_trim_comment(comment@),
{
    let t = trim_chars(comment);
    let n = vstd::string::StrSliceExecFns::unicode_len(t);
    if n >= 2 && vstd::string::StrSliceExecFns::get_char(t, n - 2) == '*'
        && vstd::string::StrSliceExecFns::get_char(t, n - 1) == '/' {
        let stripped = vstd::string::StrSliceExecFns::substring_char(t, 0, n - 2);
        proof {
            assert(stripped@ =~= t@.take(t@.len() - 2));
        }
        let trimmed = trim_chars(stripped);
        trimmed.to_owned()
    } else {
        t.to_owned()
    }
}

/// The position of the first newline in `s`, or its length if none stands.
pub open spec fn first_newline(s: Seq<char>) -> int
    decreases s.len(),
{
    if s.len() == 0 {
        0
    } else if s[0] == '\n' {
        0
    } else {
        1 + first_newline(s.drop_first())
    }
}

/// The first newline lies within the text.
pub proof fn lemma_first_newline_bounds(s: Seq<char>)
    ensures
        0 <= first_newline(s) <= s.len(),
    decreases s.len(),
{
    if s.len() > 0 && s[0] != '\n' {
        lemma_first_newline_bounds(s.drop_first());
    }
}

/// A line as read from a header: without its newline, and without a carriage
/// return before it.
pub open spec fn strip_cr(l: Seq<char>) -> Seq<char> {
    if l.len() > 0 && l.last() == '\r' {
        l.drop_last()
    } else {
        l
    }
}

/// The lines of a header, in order.
pub open spec fn spec_lines(s: Seq<char>) -> Seq<Seq<char>>
    decreases s.len(),
{
    if s.len() == 0 {
        Seq::empty()
    } else {
        let i = first_newline(s);
        if i >= s.len() {
            seq![strip_cr(s)]
        } else {
            proof {
                lemma_first_newline_bounds(s);
            }
            seq![strip_cr(s.take(i))] + spec_lines(s.skip(i + 1))
        }
    }
}

/// Whether `l` starts with the characters of `p`.
pub open spec fn starts_with(l: Seq<char>, p: Seq<char>) -> bool {
    l.len() >= p.len() && l.take(p.len() as int) == p
}

/// Whether `c` may stand in a key identifier: an upper-case letter, a digit,
/// or an underscore.
pub open spec fn is_ident_char(c: char) -> bool {
    (65 <= c as u32 <= 90) || (48 <= c as u32 <= 57) || c as u32 == 95
}

/// The length of the run of characters from `from` on that satisfy `pred`.
pub open spec fn run_len(l: Seq<char>, from: int, ident: bool) -> int
    decreases l.len() - from,
{
    if 0 <= from < l.len() && (if ident {
        is_ident_char(l[from])
    } else {
        is_space_char(l[from])
    }) {
        1 + run_len(l, from + 1, ident)
    } else {
        0
    }
}

/// Whether a closing quote stands at `q` of `l`: the quote itself, optional
/// whitespace, then the opening of the doc comment.
pub open spec fn close_quote_at(l: Seq<char>, q: int) -> bool {
    &&& 0 <= q < l.len()
    &&& l[q] == '"'
    &&& ({
        let a = q + 1 + run_len(l, q + 1, false);
        l.len() >= a + 4 && l.subrange(a, a + 4) == "/**<"@
    })
}

/// The comment text that follows the closing quote at `q`.
pub open spec fn comment_after(l: Seq<char>, q: int) -> Seq<char> {
    l.skip(q + 1 + run_len(l, q + 1, false) + 4)
}

/// The last closing quote at or below `k`, if one stands above `lo`.
pub open spec fn last_close_quote(l: Seq<char>, lo: int, k: int) -> Option<int>
    decreases k - lo,
{
    if k <= lo {
        None
    } else if close_quote_at(l, k) {
        Some(k)
    } else {
        last_close_quote(l, lo, k - 1)
    }
}

/// The parse of one key definition line: the key identifier and the raw doc
/// comment, if the line has the shape
/// `#define PW_KEY_<IDENT> "<value>" /**< <comment>`.
///
/// The quoted value is part of the shape but contributes nothing to the key.
/// The closing quote is the last one that a whitespace run and the comment
/// opener follow, so a value may itself contain quotes.
pub open spec fn spec_define_line(l: Seq<char>) -> Option<(Seq<char>, Seq<char>)> {
    let p = "#define PW_KEY_"@;
    if !starts_with(l, p) {
        None
    } else {
        let nlen = run_len(l, p.len() as int, true);
        let wlen = run_len(l, p.len() + nlen, false);
        let vstart = p.len() + nlen + wlen;
        if nlen == 0 || wlen == 0 || !(vstart < l.len() && l[vstart] == '"') {
            None
        } else {
            match last_close_quote(l, vstart, l.len() - 1) {
                None => None,
                Some(q) => Some(
                    (l.subrange(p.len() as int, p.len() + nlen), comment_after(l, q)),
                ),
            }
        }
    }
}

/// The position of the first continuation marker of `l`: a star followed by
/// a space.
pub open spec fn first_star_space(l: Seq<char>, from: int) -> Option<int>
    decreases l.len() - from,
{
    if from < 0 || from + 2 > l.len() {
        None
    } else if l[from] == '*' && l[from + 1] == ' ' {
        Some(from)
    } else {
        first_star_space(l, from + 1)
    }
}

/// What one line contributes to the parse: the new deprecated-block state
/// and the new list of keys, each a (identifier, comment) pair.
pub open spec fn spec_parse_line(
    l: Seq<char>,
    deprecated: bool,
    acc: Seq<(Seq<char>, Seq<char>)>,
) -> (bool, Seq<(Seq<char>, Seq<char>)>) {
    if l.len() == 0 {
        (deprecated, acc)
    } else if l == "#ifdef PW_ENABLE_DEPRECATED"@ {
        (true, acc)
    } else if l == "#endif /* PW_ENABLE_DEPRECATED */"@ {
        (false, acc)
    } else if starts_with(l, "/*"@) {
        (deprecated, acc)
    } else if deprecated {
        (deprecated, acc)
    } else {
        match spec_define_line(l) {
            Some((name, raw)) => (deprecated, acc.push((name, spec_trim_comment(raw)))),
            None => match first_star_space(l, 0) {
                Some(k) => if acc.len() > 0 {
                    let last = acc[acc.len() - 1];
                    (
                        deprecated,
                        acc.update(
                            acc.len() - 1,
                            (last.0, last.1 + " "@ + spec_trim_comment(l.skip(k + 2))),
                        ),
                    )
                } else {
                    (deprecated, acc)
                },
                None => (deprecated, acc),
            },
        }
    }
}

/// The parse of a sequence of lines, threading the deprecated-block state.
pub open spec fn spec_parse_lines(
    lines: Seq<Seq<char>>,
    deprecated: bool,
    acc: Seq<(Seq<char>, Seq<char>)>,
) -> Seq<(Seq<char>, Seq<char>)>
    decreases lines.len(),
{
    if lines.len() == 0 {
        acc
    } else {
        let (d, a) = spec_parse_line(lines[0], deprecated, acc);
        spec_parse_lines(lines.drop_first(), d, a)
    }
}

/// The keys a header declares: each trimmed line contributes per
/// [`spec_parse_line`], outside deprecated blocks, in order.
pub open spec fn spec_parse(s: Seq<char>) -> Seq<(Seq<char>, Seq<char>)> {
    spec_parse_lines(spec_lines(s).map_values(|l: Seq<char>| spec_trim(l)), false, Seq::empty())
}

/// Whether the keys hold exactly the parsed identifiers and comments, with
/// each C symbol derived from its identifier.
pub open spec fn keys_match(keys: Seq<Key>, model: Seq<(Seq<char>, Seq<char>)>) -> bool {
    &&& keys.len() == model.len()
    &&& forall|i: int| 0 <= i < keys.len() ==> {
        &&& (#[trigger] keys[i]).spec_rust_symb() == model[i].0
        &&& keys[i].spec_c_symb() == "PW_KEY_"@ + model[i].0
        &&& keys[i].spec_comment() == model[i].1
    }
}

fn is_ident(c: char) -> (r: bool)
    ensures
        r == is_ident_char(c),
{
    let u = c as u32;
    (65 <= u && u <= 90) || (48 <= u && u <= 57) || u == 95
}

fn run_char_ok(l: &str, i: usize, ident: bool) -> (r: bool)
    requires
        i < l@.len(),
    ensures
        r == if ident {
            is_ident_char(l@[i as int])
        } else {
            is_space_char(l@[i as int])
        },
{
    let c = vstd::string::StrSliceExecFns::get_char(l, i);
    if ident {
        is_ident(c)
    } else {
        is_space(c)
    }
}

/// The length of the run of identifier or whitespace characters at `from`.
fn char_run(l: &str, from: usize, ident: bool) -> (r: usize)
    requires
        from <= l@.len(),
    ensures
        r == run_len(l@, from as int, ident),
        from + r <= l@.len(),
{
    let n = vstd::string::StrSliceExecFns::unicode_len(l);
    let mut i: usize = from;
    while i < n && run_char_ok(l, i, ident)
        invariant
            from <= i <= n,
            n == l@.len(),
            run_len(l@, from as int, ident) == i - from + run_len(l@, i as int, ident),
        decreases n - i,
    {
        i = i + 1;
    }
    i - from
}

/// Whether the characters of `p` stand at offset `at` of `l`.
fn has_at(l: &str, at: usize, p: &str) -> (r: bool)
    requires
        at <= l@.len(),
    ensures
        r == (at + p@.len() <= l@.len() && l@.subrange(at as int, at + p@.len()) == p@),
{
    let n = vstd::string::StrSliceExecFns::unicode_len(l);
    let m = vstd::string::StrSliceExecFns::unicode_len(p);
    if n - at < m {
        return false;
    }
    let mut i: usize = 0;
    while i < m
        invariant
            i <= m,
            n == l@.len(),
            m == p@.len(),
            at + m <= n,
            forall|k: int| 0 <= k < i ==> l@[at + k] == p@[k],
        decreases m - i,
    {
        if vstd::string::StrSliceExecFns::get_char(l, at + i)
            != vstd::string::StrSliceExecFns::get_char(p, i) {
            proof {
                assert(l@.subrange(at as int, at + p@.len())[i as int] != p@[i as int]);
            }
            return false;
        }
        i = i + 1;
    }
    proof {
        assert(l@.subrange(at as int, at + p@.len()) =~= p@);
    }
    true
}

/// Whether `l` holds exactly the characters of `p`.
fn str_eq(l: &str, p: &str) -> (r: bool)
    ensures
        r == (l@ == p@),
{
    let n = vstd::string::StrSliceExecFns::unicode_len(l);
    let m = vstd::string::StrSliceExecFns::unicode_len(p);
    if n != m {
        return false;
    }
    let r = has_at(l, 0, p);
    proof {
        assert(l@.subrange(0, l@.len() as int) =~= l@);
    }
    r
}

/// Whether a closing quote stands at `q` of `l`.
fn is_close_quote(l: &str, q: usize) -> (r: bool)
    requires
        q < l@.len(),
    ensures
        r == close_quote_at(l@, q as int),
{
    let n = vstd::string::StrSliceExecFns::unicode_len(l);
    proof {
        reveal_strlit("/**<");
        assert("/**<"@.len() == 4);
    }
    if vstd::string::StrSliceExecFns::get_char(l, q) != '"' {
        return false;
    }
    let w = char_run(l, q + 1, false);
    has_at(l, q + 1 + w, "/**<")
}

/// The last closing quote of `l` above `lo`, scanning down from the end.
fn find_close_quote(l: &str, lo: usize) -> (r: Option<usize>)
    requires
        lo < l@.len(),
    ensures
        match r {
            Some(q) => lo < q < l@.len() && last_close_quote(l@, lo as int, l@.len() - 1)
                == Some(q as int) && close_quote_at(l@, q as int),
            None => last_close_quote(l@, lo as int, l@.len() - 1) is None,
        },
{
    let n = vstd::string::StrSliceExecFns::unicode_len(l);
    let mut k = n - 1;
    while k > lo
        invariant
            lo <= k <= n - 1,
            n == l@.len(),
            last_close_quote(l@, lo as int, n - 1) == last_close_quote(l@, lo as int, k as int),
        decreases k,
    {
        if is_close_quote(l, k) {
            return Some(k);
        }
        k = k - 1;
    }
    None
}

/// The first continuation marker of `l`: a star followed by a space.
fn find_star_space(l: &str) -> (r: Option<usize>)
    ensures
        match r {
            Some(k) => first_star_space(l@, 0) == Some(k as int) && k + 2 <= l@.len(),
            None => first_star_space(l@, 0) is None,
        },
{
    let n = vstd::string::StrSliceExecFns::unicode_len(l);
    if n < 2 {
        return None;
    }
    let mut k: usize = 0;
    while k < n - 1 && !(vstd::string::StrSliceExecFns::get_char(l, k) == '*'
        && vstd::string::StrSliceExecFns::get_char(l, k + 1) == ' ')
        invariant
            k <= n - 1,
            n == l@.len(),
            first_star_space(l@, 0) == first_star_space(l@, k as int),
        decreases n - k,
    {
        k = k + 1;
    }
    if k < n - 1 {
        Some(k)
    } else {
        None
    }
}

/// The key identifier and raw comment of a key definition line, if the line
/// has that shape.
fn try_define<'a>(t: &'a str) -> (r: Option<(&'a str, &'a str)>)
    ensures
        match r {
            Some((nm, cm)) => spec_define_line(t@) == Some((nm@, cm@)),
            None => spec_define_line(t@) is None,
        },
{
    proof {
        reveal_strlit("#define PW_KEY_");
        assert("#define PW_KEY_"@.len() == 15);
        assert(t@.take(15) =~= t@.subrange(0, 15));
    }
    if !has_at(t, 0, "#define PW_KEY_") {
        return None;
    }
    let n = vstd::string::StrSliceExecFns::unicode_len(t);
    let nlen = char_run(t, 15, true);
    let wlen = char_run(t, 15 + nlen, false);
    let vstart = 15 + nlen + wlen;
    if nlen == 0 || wlen == 0 || vstart >= n
        || vstd::string::StrSliceExecFns::get_char(t, vstart) != '"' {
        return None;
    }
    match find_close_quote(t, vstart) {
        None => None,
        Some(q) => {
            let w2 = char_run(t, q + 1, false);
            let cstart = q + 1 + w2 + 4;
            proof {
                assert(close_quote_at(t@, q as int));
                reveal_strlit("/**<");
                assert("/**<"@.len() == 4);
            }
            let name = vstd::string::StrSliceExecFns::substring_char(t, 15, 15 + nlen);
            let raw = vstd::string::StrSliceExecFns::substring_char(t, cstart, n);
            proof {
                assert(name@ =~= t@.subrange(15, 15 + nlen));
                assert(raw@ =~= comment_after(t@, q as int));
            }
            Some((name, raw))
        },
    }
}

/// The first newline of `t` stands where a left-to-right scan finds it.
proof fn lemma_first_newline_is(t: Seq<char>, i: int)
    requires
        0 <= i <= t.len(),
        forall|k: int| 0 <= k < i ==> t[k] != '\n',
        i == t.len() || t[i] == '\n',
    ensures
        first_newline(t) == i,
    decreases i,
{
    if i > 0 {
        assert(t[0] != '\n');
        assert forall|k: int| 0 <= k < i - 1 implies t.drop_first()[k] != '\n' by {
            assert(t.drop_first()[k] == t[k + 1]);
        }
        if i < t.len() {
            assert(t.drop_first()[i - 1] == t[i]);
        }
        lemma_first_newline_is(t.drop_first(), i - 1);
    }
}

/// Parse the keys a header declares: each line of the shape
/// `#define PW_KEY_<IDENT> "<value>" /**< <comment>` outside deprecated
/// blocks contributes one key, and a continuation line of the form
/// `* <text>` extends the comment of the key before it.
///
/// The keys come back exactly as [`spec_parse`] describes them.
#[verifier::loop_isolation(false)]
#[verifier::rlimit(100)]
pub fn parse(input: &str) -> (r: Vec<Key>)
    ensures
        keys_match(r@, spec_parse(input@)),
{
    let ghost sv = input@;
    let s_len = vstd::string::StrSliceExecFns::unicode_len(input);
    let mut lines: Vec<&str> = Vec::new();
    let mut pos: usize = 0;
    proof {
        assert(sv.skip(0) =~= sv);
        assert(lines@.map_values(|l: &str| l@) =~= Seq::<Seq<char>>::empty());
    }
    while pos < s_len
        invariant
            pos <= s_len,
            s_len == sv.len(),
            spec_lines(sv) == lines@.map_values(|l: &str| l@) + spec_lines(sv.skip(pos as int)),
        decreases s_len - pos,
    {
        let mut j = pos;
        while j < s_len && vstd::string::StrSliceExecFns::get_char(input, j) != '\n'
            invariant
                pos <= j <= s_len,
                forall|k: int| pos <= k < j ==> sv[k] != '\n',
            decreases s_len - j,
        {
            j = j + 1;
        }
        proof {
            let t = sv.skip(pos as int);
            assert forall|k: int| 0 <= k < j - pos implies t[k] != '\n' by {
                assert(t[k] == sv[pos + k]);
            }
            if j < s_len {
                assert(t[j - pos] == sv[j as int]);
            }
            lemma_first_newline_is(t, j - pos);
        }
        let raw = vstd::string::StrSliceExecFns::substring_char(input, pos, j);
        let rn = vstd::string::StrSliceExecFns::unicode_len(raw);
        let line = if rn > 0 && vstd::string::StrSliceExecFns::get_char(raw, rn - 1) == '\r' {
            vstd::string::StrSliceExecFns::substring_char(raw, 0, rn - 1)
        } else {
            raw
        };
        proof {
            let t = sv.skip(pos as int);
            let ghost old_views = lines@.map_values(|l: &str| l@);
            if j < s_len {
                assert(t.take(j - pos) =~= sv.subrange(pos as int, j as int));
                assert(line@ =~= strip_cr(t.take(j - pos)));
                assert(t.skip(j - pos + 1) =~= sv.skip(j + 1));
                assert(spec_lines(t) =~= seq![strip_cr(t.take(j - pos))] + spec_lines(
                    sv.skip(j + 1),
                ));
            } else {
                assert(t.take(j - pos) =~= t);
                assert(line@ =~= strip_cr(t));
                assert(spec_lines(t) =~= seq![strip_cr(t)]);
                assert(sv.skip(j as int).len() == 0);
                assert(spec_lines(sv.skip(j as int)) =~= Seq::<Seq<char>>::empty());
            }
            assert((lines@ + seq![line]).map_values(|l: &str| l@) =~= old_views + seq![line@]);
        }
        lines.push(line);
        if j < s_len {
            pos = j + 1;
        } else {
            pos = s_len;
        }
        proof {
            if pos == s_len && j == s_len {
                assert(spec_lines(sv.skip(pos as int)) =~= Seq::<Seq<char>>::empty());
            }
            assert(spec_lines(sv) =~= lines@.map_values(|l: &str| l@) + spec_lines(
                sv.skip(pos as int),
            ));
        }
    }
    proof {
        assert(sv.skip(pos as int).len() == 0);
        assert(spec_lines(sv.skip(pos as int)) =~= Seq::<Seq<char>>::empty());
        assert(spec_lines(sv) =~= lines@.map_values(|l: &str| l@));
    }
    let ghost tmodel = spec_lines(sv).map_values(|l: Seq<char>| spec_trim(l));
    let ghost mut model: Seq<(Seq<char>, Seq<char>)> = Seq::empty();
    let mut keys: Vec<Key> = Vec::new();
    let mut deprecated = false;
    let nlines = lines.len();
    let mut i: usize = 0;
    proof {
        assert(tmodel.skip(0) =~= tmodel);
    }
    while i < nlines
        invariant
            i <= nlines,
            nlines == lines@.len(),
            lines@.len() == spec_lines(sv).len(),
            forall|k: int| 0 <= k < nlines ==> (#[trigger] lines@[k])@ == spec_lines(sv)[k],
            spec_parse_lines(tmodel, false, Seq::empty()) == spec_parse_lines(
                tmodel.skip(i as int),
                deprecated,
                model,
            ),
            keys_match(keys@, model),
        decreases nlines - i,
    {
        let t = trim_chars(lines[i]);
        let ghost depr0 = deprecated;
        let ghost model0 = model;
        proof {
            assert(tmodel[i as int] == spec_trim(spec_lines(sv)[i as int]));
            assert(t@ == tmodel[i as int]);
        }
        let t_len = vstd::string::StrSliceExecFns::unicode_len(t);
        if t_len == 0 {
            // an empty line contributes nothing
        } else if str_eq(t, "#ifdef PW_ENABLE_DEPRECATED") {
            deprecated = true;
        } else if str_eq(t, "#endif /* PW_ENABLE_DEPRECATED */") {
            deprecated = false;
        } else if ({
            proof {
                assert(t@.take("/*"@.len() as int) =~= t@.subrange(0, "/*"@.len() as int));
            }
            has_at(t, 0, "/*")
        }) {
            // a section comment contributes nothing
        } else if deprecated {
            // everything in a deprecated block is ignored
        } else {
            match try_define(t) {
                Some((nm, raw)) => {
                    let comment = trim_comment(raw);
                    let key = Key::new(nm, comment.as_str());
                    keys.push(key);
                    proof {
                        model = model0.push((nm@, spec_trim_comment(raw@)));
                        assert(keys_match(keys@, model));
                    }
                },
                None => {
                    match find_star_space(t) {
                        Some(k) => {
                            let n_keys = keys.len();
                            if n_keys > 0 {
                                let extra = trim_comment(
                                    vstd::string::StrSliceExecFns::substring_char(t, k + 2, t_len),
                                );
                                match keys.pop() {
                                    Some(mut last) => {
                                        last.comment.append(" ");
                                        last.comment.append(extra.as_str());
                                        keys.push(last);
                                    },
                                    None => {
                                    },
                                }
                                proof {
                                    let li = model0.len() - 1;
                                    let old_pair = model0[li];
                                    assert(t@.skip(k + 2) =~= t@.subrange(k + 2, t@.len() as int));
                                    model = model0.update(
                                        li,
                                        (old_pair.0, old_pair.1 + " "@ + spec_trim_comment(
                                            t@.skip(k + 2),
                                        )),
                                    );
                                    assert(keys_match(keys@, model));
                                }
                            }
                        },
                        None => {
                        },
                    }
                },
            }
        }
        proof {
            assert(spec_parse_line(tmodel[i as int], depr0, model0) == (deprecated, model));
            assert(tmodel.skip(i as int).drop_first() =~= tmodel.skip(i + 1));
            assert(tmodel.skip(i as int)[0] == tmodel[i as int]);
        }
        i = i + 1;
    }
    proof {
        assert(tmodel.skip(nlines as int).len() == 0);
        assert(spec_parse_lines(tmodel.skip(nlines as int), deprecated, model) == model);
    }
    keys
}

/// One key of the generated table: its identifier, the C symbol it is read
/// from, and its doc comment.
#[derive(Debug, PartialEq)]
pub struct Key {
    rust_symb: String,
    c_symb: String,
    comment: String,
}

impl Key {
    /// The identifier of the generated constant.
    pub closed spec fn spec_rust_symb(&self) -> Seq<char> {
        self.rust_symb@
    }

    /// The C symbol the constant is read from.
    pub closed spec fn spec_c_symb(&self) -> Seq<char> {
        self.c_symb@
    }

    /// The doc comment of the generated constant.
    pub closed spec fn spec_comment(&self) -> Seq<char> {
        self.comment@
    }

    /// A key named `rust_symb`, documented by `comment`; the C symbol is the
    /// identifier prefixed with `PW_KEY_`.
    pub fn new(rust_symb: &str, comment: &str) -> (k: Self)
        ensures
            k.spec_rust_symb() == rust_symb@,
            k.spec_c_symb() == "PW_KEY_"@ + rust_symb@,
            k.spec_comment() == comment@,
    {
        let mut c_symb = String::from_str("PW_KEY_");
        c_symb.append(rust_symb);
        Self {
            rust_symb: String::from_str(rust_symb),
            c_symb,
            comment: String::from_str(comment),
        }
    }
}

/// The generated line for one key.
pub open spec fn spec_key_line(k: Key) -> Seq<char> {
    "key_constant!("@ + k.spec_rust_symb() + ", "@ + k.spec_c_symb() + ",\n    /// "@
        + k.spec_comment() + "\n);\n"@
}

/// The generated table for a list of keys, in order.
pub open spec fn spec_generated(ks: Seq<Key>) -> Seq<char>
    decreases ks.len(),
{
    if ks.len() == 0 {
        Seq::empty()
    } else {
        spec_key_line(ks[0]) + spec_generated(ks.drop_first())
    }
}

/// Appending one more key appends exactly its line.
proof fn lemma_spec_generated_step(ks: Seq<Key>, i: int)
    requires
        0 <= i < ks.len(),
    ensures
        spec_generated(ks.take(i + 1)) == spec_generated(ks.take(i)) + spec_key_line(ks[i]),
    decreases i,
{
    if i == 0 {
        assert(ks.take(1).drop_first() =~= Seq::<Key>::empty());
        assert(spec_generated(Seq::<Key>::empty()) == Seq::<char>::empty());
        assert(ks.take(1)[0] == ks[0]);
        assert(spec_generated(ks.take(1)) =~= spec_key_line(ks[0]));
        assert(spec_generated(ks.take(0)) == Seq::<char>::empty());
        assert(spec_generated(ks.take(0)) + spec_key_line(ks[0]) =~= spec_key_line(ks[0]));
    } else {
        lemma_spec_generated_step(ks.drop_first(), i - 1);
        assert(ks.take(i + 1).drop_first() =~= ks.drop_first().take(i));
        assert(ks.take(i).drop_first() =~= ks.drop_first().take(i - 1));
        assert(ks.take(i + 1)[0] == ks[0]);
        assert(ks.take(i)[0] == ks[0]);
        assert(ks.drop_first()[i - 1] == ks[i]);
        assert(spec_generated(ks.take(i + 1)) =~= spec_generated(ks.take(i)) + spec_key_line(
            ks[i],
        ));
    }
}

/// Generate the `key_constant!` table for `keys`: one entry per key, in
/// order, each carrying its identifier, its C symbol, and its doc comment.
pub fn generate_rust(keys: &[Key]) -> (r: String)
    ensures
        r@ == spec_generated(keys@),
{
    let mut res = String::new();
    let n = keys.len();
    let mut i: usize = 0;
    while i < n
        invariant
            i <= n,
            n == keys@.len(),
            res@ == spec_generated(keys@.take(i as int)),
        decreases n - i,
    {
        let key = vstd::slice::slice_index_get(keys, i);
        res.append("key_constant!(");
        res.append(key.rust_symb.as_str());
        res.append(", ");
        res.append(key.c_symb.as_str());
        res.append(",\n    /// ");
        res.append(key.comment.as_str());
        res.append("\n);\n");
        proof {
            lemma_spec_generated_step(keys@, i as int);
            assert(res@ =~= spec_generated(keys@.take(i + 1)));
        }
        i = i + 1;
    }
    proof {
        assert(keys@.take(n as int) =~= keys@);
    }
    res
}

} // verus!
