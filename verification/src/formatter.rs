use vstd::prelude::*;

verus! {

/// A character a handle may contain: a letter, a digit, or an underscore.
pub open spec fn is_word_char(c: char) -> bool {
    (97 <= c as u32 <= 122) || (65 <= c as u32 <= 90) || (48 <= c as u32 <= 57) || c == '_'
}

/// A decimal digit.
pub open spec fn is_digit_char(c: char) -> bool {
    48 <= c as u32 <= 57
}

/// A closing or separator character that may trail a numeric hashtag: the
/// corner brackets U+300C..U+300F, the full-width parentheses U+FF08/U+FF09,
/// the lenticular brackets U+3010/U+3011, the plain and full-width colon, and
/// the plain and full-width vertical bar.
pub open spec fn is_hash_punct(c: char) -> bool {
    c == '\u{300C}' || c == '\u{300D}' || c == '\u{300E}' || c == '\u{300F}' || c == '\u{FF08}'
        || c == '\u{FF09}' || c == '\u{3010}' || c == '\u{3011}' || c == ':' || c == '\u{FF1A}'
        || c == '\u{FF5C}' || c == '|'
}

/// The length of the longest prefix of `s` made of handle characters.
pub open spec fn word_run(s: Seq<char>) -> int
    decreases s.len(),
{
    if s.len() == 0 || !is_word_char(s[0]) {
        0
    } else {
        1 + word_run(s.skip(1))
    }
}

/// The length of the longest prefix of `s` made of decimal digits.
pub open spec fn digit_run(s: Seq<char>) -> int
    decreases s.len(),
{
    if s.len() == 0 || !is_digit_char(s[0]) {
        0
    } else {
        1 + digit_run(s.skip(1))
    }
}

/// The length of the longest prefix of `s` made of trailing-punctuation
/// characters.
pub open spec fn punct_run(s: Seq<char>) -> int
    decreases s.len(),
{
    if s.len() == 0 || !is_hash_punct(s[0]) {
        0
    } else {
        1 + punct_run(s.skip(1))
    }
}

pub proof fn lemma_word_run_bounds(s: Seq<char>)
    ensures
        0 <= word_run(s) <= s.len(),
    decreases s.len(),
{
    if s.len() == 0 || !is_word_char(s[0]) {
    } else {
        lemma_word_run_bounds(s.skip(1));
    }
}

pub proof fn lemma_digit_run_bounds(s: Seq<char>)
    ensures
        0 <= digit_run(s) <= s.len(),
    decreases s.len(),
{
    if s.len() == 0 || !is_digit_char(s[0]) {
    } else {
        lemma_digit_run_bounds(s.skip(1));
    }
}

pub proof fn lemma_punct_run_bounds(s: Seq<char>)
    ensures
        0 <= punct_run(s) <= s.len(),
    decreases s.len(),
{
    if s.len() == 0 || !is_hash_punct(s[0]) {
    } else {
        lemma_punct_run_bounds(s.skip(1));
    }
}

/// Rule: each newline gains two spaces of indentation after it, so that a
/// multi-line body stays under its list marker when rendered.
pub open spec fn indent_newlines(s: Seq<char>) -> Seq<char>
    decreases s.len(),
{
    if s.len() == 0 {
        Seq::empty()
    } else if s[0] == '\n' {
        seq!['\n', ' ', ' '] + indent_newlines(s.skip(1))
    } else {
        seq![s[0]] + indent_newlines(s.skip(1))
    }
}

/// Whether `s` begins with an `@handle` mention.
pub open spec fn mention_match(s: Seq<char>) -> bool {
    s.len() >= 2 && s[0] == '@' && is_word_char(s[1])
}

/// Rule: each `@handle` becomes the internal link `[[@handle]]`; the handle is
/// the longest run of handle characters after the `@`.
pub open spec fn link_mentions(s: Seq<char>) -> Seq<char>
    decreases s.len(),
    via link_mentions_decreases
{
    if s.len() == 0 {
        Seq::empty()
    } else if mention_match(s) {
        let n = word_run(s.skip(1));
        seq!['[', '[', '@'] + s.subrange(1, 1 + n) + seq![']', ']'] + link_mentions(
            s.skip(1 + n),
        )
    } else {
        seq![s[0]] + link_mentions(s.skip(1))
    }
}

#[via_fn]
proof fn link_mentions_decreases(s: Seq<char>) {
    if s.len() > 0 && mention_match(s) {
        lemma_word_run_bounds(s.skip(1));
    }
}

/// Whether `s` begins with a numeric hashtag glued to trailing punctuation.
pub open spec fn hash_punct_match(s: Seq<char>) -> bool {
    s.len() >= 2 && s[0] == '#' && is_digit_char(s[1]) && 1 + digit_run(s.skip(1)) < s.len()
        && is_hash_punct(s[1 + digit_run(s.skip(1))])
}

/// Rule: a space is inserted between a leading `#digits` hashtag and the
/// closing or separator punctuation glued to it.
pub open spec fn space_hash_punct(s: Seq<char>) -> Seq<char>
    decreases s.len(),
    via space_hash_punct_decreases
{
    if s.len() == 0 {
        Seq::empty()
    } else if hash_punct_match(s) {
        let d = digit_run(s.skip(1));
        let p = punct_run(s.skip(1 + d));
        seq!['#'] + s.subrange(1, 1 + d) + seq![' '] + s.subrange(1 + d, 1 + d + p)
            + space_hash_punct(s.skip(1 + d + p))
    } else {
        seq![s[0]] + space_hash_punct(s.skip(1))
    }
}

#[via_fn]
proof fn space_hash_punct_decreases(s: Seq<char>) {
    if s.len() > 0 && hash_punct_match(s) {
        lemma_digit_run_bounds(s.skip(1));
        let d = digit_run(s.skip(1));
        lemma_punct_run_bounds(s.skip(1 + d));
        assert(punct_run(s.skip(1 + d)) >= 1) by {
            assert(s.skip(1 + d).len() == s.len() - (1 + d));
            assert(s.skip(1 + d)[0] == s[1 + d]);
            assert(is_hash_punct(s.skip(1 + d)[0]));
            lemma_punct_run_bounds(s.skip(1 + d).skip(1));
        }
    }
}

/// Whether `s` begins with the four letters of `http`.
pub open spec fn starts_http(s: Seq<char>) -> bool {
    s.len() >= 4 && s[0] == 'h' && s[1] == 't' && s[2] == 't' && s[3] == 'p'
}

/// Whether `s` begins with a numeric hashtag glued to a literal `http`.
pub open spec fn hash_url_match(s: Seq<char>) -> bool {
    s.len() >= 2 && s[0] == '#' && is_digit_char(s[1]) && starts_http(
        s.skip(1 + digit_run(s.skip(1))),
    )
}

/// Rule: a space is inserted between a leading `#digits` hashtag and a literal
/// `http` glued to it.
pub open spec fn space_hash_url(s: Seq<char>) -> Seq<char>
    decreases s.len(),
    via space_hash_url_decreases
{
    if s.len() == 0 {
        Seq::empty()
    } else if hash_url_match(s) {
        let d = digit_run(s.skip(1));
        seq!['#'] + s.subrange(1, 1 + d) + seq![' ', 'h', 't', 't', 'p'] + space_hash_url(
            s.skip(1 + d + 4),
        )
    } else {
        seq![s[0]] + space_hash_url(s.skip(1))
    }
}

#[via_fn]
proof fn space_hash_url_decreases(s: Seq<char>) {
    if s.len() > 0 && hash_url_match(s) {
        lemma_digit_run_bounds(s.skip(1));
    }
}

/// The whole text normalization: indentation first, then mention linking, then
/// the two hashtag separations, each over the full string.
pub open spec fn formatted_text(s: Seq<char>) -> Seq<char> {
    space_hash_url(space_hash_punct(link_mentions(indent_newlines(s))))
}

fn is_word_char_exec(c: char) -> (r: bool)
    ensures
        r == is_word_char(c),
{
    let u = c as u32;
    (97 <= u && u <= 122) || (65 <= u && u <= 90) || (48 <= u && u <= 57) || c == '_'
}

fn is_digit_char_exec(c: char) -> (r: bool)
    ensures
        r == is_digit_char(c),
{
    let u = c as u32;
    48 <= u && u <= 57
}

fn is_hash_punct_exec(c: char) -> (r: bool)
    ensures
        r == is_hash_punct(c),
{
    c == '\u{300C}' || c == '\u{300D}' || c == '\u{300E}' || c == '\u{300F}' || c == '\u{FF08}'
        || c == '\u{FF09}' || c == '\u{3010}' || c == '\u{3011}' || c == ':' || c == '\u{FF1A}'
        || c == '\u{FF5C}' || c == '|'
}

/// The position right after the run of handle characters that starts at `p`.
fn word_run_end(s: &Vec<char>, p: usize) -> (e: usize)
    requires
        p <= s.len(),
    ensures
        p <= e <= s.len(),
        e - p == word_run(s@.skip(p as int)),
{
    let mut e = p;
    while e < s.len() && is_word_char_exec(s[e])
        invariant
            p <= e <= s.len(),
            word_run(s@.skip(p as int)) == (e - p) + word_run(s@.skip(e as int)),
        decreases s.len() - e,
    {
        proof {
            assert(s@.skip(e as int)[0] == s@[e as int]);
            assert(s@.skip(e as int).skip(1) =~= s@.skip(e as int + 1));
        }
        e = e + 1;
    }
    proof {
        if e < s.len() {
            assert(s@.skip(e as int)[0] == s@[e as int]);
        } else {
            assert(s@.skip(e as int).len() == 0);
        }
        assert(word_run(s@.skip(e as int)) == 0);
    }
    e
}

/// The position right after the run of decimal digits that starts at `p`.
fn digit_run_end(s: &Vec<char>, p: usize) -> (e: usize)
    requires
        p <= s.len(),
    ensures
        p <= e <= s.len(),
        e - p == digit_run(s@.skip(p as int)),
{
    let mut e = p;
    while e < s.len() && is_digit_char_exec(s[e])
        invariant
            p <= e <= s.len(),
            digit_run(s@.skip(p as int)) == (e - p) + digit_run(s@.skip(e as int)),
        decreases s.len() - e,
    {
        proof {
            assert(s@.skip(e as int)[0] == s@[e as int]);
            assert(s@.skip(e as int).skip(1) =~= s@.skip(e as int + 1));
        }
        e = e + 1;
    }
    proof {
        if e < s.len() {
            assert(s@.skip(e as int)[0] == s@[e as int]);
        } else {
            assert(s@.skip(e as int).len() == 0);
        }
        assert(digit_run(s@.skip(e as int)) == 0);
    }
    e
}

/// The position right after the run of trailing punctuation that starts at `p`.
fn punct_run_end(s: &Vec<char>, p: usize) -> (e: usize)
    requires
        p <= s.len(),
    ensures
        p <= e <= s.len(),
        e - p == punct_run(s@.skip(p as int)),
{
    let mut e = p;
    while e < s.len() && is_hash_punct_exec(s[e])
        invariant
            p <= e <= s.len(),
            punct_run(s@.skip(p as int)) == (e - p) + punct_run(s@.skip(e as int)),
        decreases s.len() - e,
    {
        proof {
            assert(s@.skip(e as int)[0] == s@[e as int]);
            assert(s@.skip(e as int).skip(1) =~= s@.skip(e as int + 1));
        }
        e = e + 1;
    }
    proof {
        if e < s.len() {
            assert(s@.skip(e as int)[0] == s@[e as int]);
        } else {
            assert(s@.skip(e as int).len() == 0);
        }
        assert(punct_run(s@.skip(e as int)) == 0);
    }
    e
}

/// Copies `s[from..to]` onto the end of `out`.
fn push_range(out: &mut Vec<char>, s: &Vec<char>, from: usize, to: usize)
    requires
        from <= to <= s.len(),
    ensures
        final(out)@ == old(out)@ + s@.subrange(from as int, to as int),
{
    let mut m = from;
    while m < to
        invariant
            from <= m <= to <= s.len(),
            out@ == old(out)@ + s@.subrange(from as int, m as int),
        decreases to - m,
    {
        out.push(s[m]);
        proof {
            assert(out@ =~= old(out)@ + s@.subrange(from as int, m as int + 1));
        }
        m = m + 1;
    }
}

/// The indentation rule, applied once over the whole text.
fn apply_indent(input: &Vec<char>) -> (out: Vec<char>)
    ensures
        out@ == indent_newlines(input@),
{
    let mut out: Vec<char> = Vec::new();
    let n = input.len();
    let mut i: usize = 0;
    proof {
        assert(input@.skip(0) =~= input@);
    }
    while i < n
        invariant
            i <= n,
            n == input@.len(),
            out@ + indent_newlines(input@.skip(i as int)) == indent_newlines(input@),
        decreases n - i,
    {
        let ghost pre = out@;
        let ghost suf = input@.skip(i as int);
        proof {
            assert(suf[0] == input@[i as int]);
            assert(suf.skip(1) =~= input@.skip(i as int + 1));
        }
        let c = input[i];
        if c == '\n' {
            out.push('\n');
            out.push(' ');
            out.push(' ');
            proof {
                assert(out@ =~= pre + seq!['\n', ' ', ' ']);
                assert(out@ + indent_newlines(input@.skip(i as int + 1)) =~= pre
                    + indent_newlines(suf));
            }
        } else {
            out.push(c);
            proof {
                assert(out@ =~= pre + seq![c]);
                assert(out@ + indent_newlines(input@.skip(i as int + 1)) =~= pre
                    + indent_newlines(suf));
            }
        }
        i = i + 1;
    }
    proof {
        assert(input@.skip(n as int).len() == 0);
        assert(indent_newlines(input@.skip(n as int)) =~= Seq::<char>::empty());
        assert(out@ + indent_newlines(input@.skip(n as int)) =~= out@);
    }
    out
}

/// The mention-linking rule, applied once over the whole text.
fn apply_mentions(input: &Vec<char>) -> (out: Vec<char>)
    ensures
        out@ == link_mentions(input@),
{
    let mut out: Vec<char> = Vec::new();
    let n = input.len();
    let mut i: usize = 0;
    proof {
        assert(input@.skip(0) =~= input@);
    }
    while i < n
        invariant
            i <= n,
            n == input@.len(),
            out@ + link_mentions(input@.skip(i as int)) == link_mentions(input@),
        decreases n - i,
    {
        let ghost pre = out@;
        let ghost suf = input@.skip(i as int);
        proof {
            assert(suf[0] == input@[i as int]);
            assert(suf.skip(1) =~= input@.skip(i as int + 1));
            if i + 1 < n {
                assert(suf[1] == input@[i as int + 1]);
            }
        }
        let c = input[i];
        if c == '@' && i + 1 < n && is_word_char_exec(input[i + 1]) {
            let e = word_run_end(input, i + 1);
            proof {
                assert(suf.skip(1) =~= input@.skip(i as int + 1));
                assert(word_run(suf.skip(1)) == e - (i + 1));
                assert(mention_match(suf));
                lemma_word_run_bounds(suf.skip(1));
                assert(suf.subrange(1, 1 + (e - (i + 1)) as int) =~= input@.subrange(
                    i as int + 1,
                    e as int,
                ));
                assert(suf.skip(1 + (e - (i + 1)) as int) =~= input@.skip(e as int));
            }
            out.push('[');
            out.push('[');
            out.push('@');
            push_range(&mut out, input, i + 1, e);
            out.push(']');
            out.push(']');
            proof {
                assert(out@ =~= pre + seq!['[', '[', '@'] + input@.subrange(
                    i as int + 1,
                    e as int,
                ) + seq![']', ']']);
                assert(link_mentions(suf) == seq!['[', '[', '@'] + input@.subrange(
                    i as int + 1,
                    e as int,
                ) + seq![']', ']'] + link_mentions(input@.skip(e as int)));
                assert(out@ + link_mentions(input@.skip(e as int)) =~= pre + link_mentions(suf));
            }
            i = e;
        } else {
            proof {
                assert(!mention_match(suf));
            }
            out.push(c);
            proof {
                assert(out@ =~= pre + seq![c]);
                assert(out@ + link_mentions(input@.skip(i as int + 1)) =~= pre + link_mentions(
                    suf,
                ));
            }
            i = i + 1;
        }
    }
    proof {
        assert(input@.skip(n as int).len() == 0);
        assert(link_mentions(input@.skip(n as int)) =~= Seq::<char>::empty());
        assert(out@ + link_mentions(input@.skip(n as int)) =~= out@);
    }
    out
}

/// The hashtag/punctuation separation rule, applied once over the whole text.
fn apply_hash_punct(input: &Vec<char>) -> (out: Vec<char>)
    ensures
        out@ == space_hash_punct(input@),
{
    let mut out: Vec<char> = Vec::new();
    let n = input.len();
    let mut i: usize = 0;
    proof {
        assert(input@.skip(0) =~= input@);
    }
    while i < n
        invariant
            i <= n,
            n == input@.len(),
            out@ + space_hash_punct(input@.skip(i as int)) == space_hash_punct(input@),
        decreases n - i,
    {
        let ghost pre = out@;
        let ghost suf = input@.skip(i as int);
        proof {
            assert(suf[0] == input@[i as int]);
            assert(suf.skip(1) =~= input@.skip(i as int + 1));
            if i + 1 < n {
                assert(suf[1] == input@[i as int + 1]);
            }
        }
        let c = input[i];
        let mut plain = true;
        if c == '#' && i + 1 < n && is_digit_char_exec(input[i + 1]) {
            let d_end = digit_run_end(input, i + 1);
            proof {
                assert(digit_run(suf.skip(1)) == d_end - (i + 1));
            }
            if d_end < n && is_hash_punct_exec(input[d_end]) {
                let p_end = punct_run_end(input, d_end);
                proof {
                    assert(suf[1 + (d_end - (i + 1)) as int] == input@[d_end as int]);
                    assert(hash_punct_match(suf));
                    assert(suf.skip(1 + (d_end - (i + 1)) as int) =~= input@.skip(d_end as int));
                    assert(punct_run(input@.skip(d_end as int)) == p_end - d_end);
                    assert(suf.subrange(1, 1 + (d_end - (i + 1)) as int) =~= input@.subrange(
                        i as int + 1,
                        d_end as int,
                    ));
                    assert(suf.subrange(
                        1 + (d_end - (i + 1)) as int,
                        1 + (d_end - (i + 1)) as int + (p_end - d_end) as int,
                    ) =~= input@.subrange(d_end as int, p_end as int));
                    assert(suf.skip(1 + (d_end - (i + 1)) as int + (p_end - d_end) as int)
                        =~= input@.skip(p_end as int));
                }
                out.push('#');
                push_range(&mut out, input, i + 1, d_end);
                out.push(' ');
                push_range(&mut out, input, d_end, p_end);
                proof {
                    assert(out@ =~= pre + seq!['#'] + input@.subrange(i as int + 1, d_end as int)
                        + seq![' '] + input@.subrange(d_end as int, p_end as int));
                    assert(space_hash_punct(suf) == seq!['#'] + input@.subrange(
                        i as int + 1,
                        d_end as int,
                    ) + seq![' '] + input@.subrange(d_end as int, p_end as int)
                        + space_hash_punct(input@.skip(p_end as int)));
                    assert(out@ + space_hash_punct(input@.skip(p_end as int)) =~= pre
                        + space_hash_punct(suf));
                }
                i = p_end;
                plain = false;
            } else {
                proof {
                    if (1 + (d_end - (i + 1)) as int) < suf.len() {
                        assert(suf[1 + (d_end - (i + 1)) as int] == input@[d_end as int]);
                    }
                    assert(!hash_punct_match(suf));
                }
            }
        } else {
            proof {
                assert(!hash_punct_match(suf));
            }
        }
        if plain {
            out.push(c);
            proof {
                assert(out@ =~= pre + seq![c]);
                assert(out@ + space_hash_punct(input@.skip(i as int + 1)) =~= pre
                    + space_hash_punct(suf));
            }
            i = i + 1;
        }
    }
    proof {
        assert(input@.skip(n as int).len() == 0);
        assert(space_hash_punct(input@.skip(n as int)) =~= Seq::<char>::empty());
        assert(out@ + space_hash_punct(input@.skip(n as int)) =~= out@);
    }
    out
}

/// The hashtag/URL separation rule, applied once over the whole text.
fn apply_hash_url(input: &Vec<char>) -> (out: Vec<char>)
    ensures
        out@ == space_hash_url(input@),
{
    let mut out: Vec<char> = Vec::new();
    let n = input.len();
    let mut i: usize = 0;
    proof {
        assert(input@.skip(0) =~= input@);
    }
    while i < n
        invariant
            i <= n,
            n == input@.len(),
            out@ + space_hash_url(input@.skip(i as int)) == space_hash_url(input@),
        decreases n - i,
    {
        let ghost pre = out@;
        let ghost suf = input@.skip(i as int);
        proof {
            assert(suf[0] == input@[i as int]);
            assert(suf.skip(1) =~= input@.skip(i as int + 1));
            if i + 1 < n {
                assert(suf[1] == input@[i as int + 1]);
            }
        }
        let c = input[i];
        let mut plain = true;
        if c == '#' && i + 1 < n && is_digit_char_exec(input[i + 1]) {
            let d_end = digit_run_end(input, i + 1);
            proof {
                assert(digit_run(suf.skip(1)) == d_end - (i + 1));
                assert(suf.skip(1 + (d_end - (i + 1)) as int) =~= input@.skip(d_end as int));
            }
            if d_end < n && n - d_end >= 4 && input[d_end] == 'h' && input[d_end + 1] == 't'
                && input[d_end + 2] == 't' && input[d_end + 3] == 'p' {
                proof {
                    assert(input@.skip(d_end as int)[0] == input@[d_end as int]);
                    assert(input@.skip(d_end as int)[1] == input@[d_end as int + 1]);
                    assert(input@.skip(d_end as int)[2] == input@[d_end as int + 2]);
                    assert(input@.skip(d_end as int)[3] == input@[d_end as int + 3]);
                    assert(starts_http(input@.skip(d_end as int)));
                    assert(hash_url_match(suf));
                    assert(suf.subrange(1, 1 + (d_end - (i + 1)) as int) =~= input@.subrange(
                        i as int + 1,
                        d_end as int,
                    ));
                    assert(suf.skip(1 + (d_end - (i + 1)) as int + 4) =~= input@.skip(
                        d_end as int + 4,
                    ));
                }
                out.push('#');
                push_range(&mut out, input, i + 1, d_end);
                out.push(' ');
                out.push('h');
                out.push('t');
                out.push('t');
                out.push('p');
                proof {
                    assert(out@ =~= pre + seq!['#'] + input@.subrange(i as int + 1, d_end as int)
                        + seq![' ', 'h', 't', 't', 'p']);
                    assert(space_hash_url(suf) == seq!['#'] + input@.subrange(
                        i as int + 1,
                        d_end as int,
                    ) + seq![' ', 'h', 't', 't', 'p'] + space_hash_url(
                        input@.skip(d_end as int + 4),
                    ));
                    assert(out@ + space_hash_url(input@.skip(d_end as int + 4)) =~= pre
                        + space_hash_url(suf));
                }
                i = d_end + 4;
                plain = false;
            } else {
                proof {
                    let t = input@.skip(d_end as int);
                    if t.len() >= 4 {
                        assert(t[0] == input@[d_end as int]);
                        assert(t[1] == input@[d_end as int + 1]);
                        assert(t[2] == input@[d_end as int + 2]);
                        assert(t[3] == input@[d_end as int + 3]);
                    }
                    assert(!starts_http(t));
                    assert(!hash_url_match(suf));
                }
            }
        } else {
            proof {
                assert(!hash_url_match(suf));
            }
        }
        if plain {
            out.push(c);
            proof {
                assert(out@ =~= pre + seq![c]);
                assert(out@ + space_hash_url(input@.skip(i as int + 1)) =~= pre + space_hash_url(
                    suf,
                ));
            }
            i = i + 1;
        }
    }
    proof {
        assert(input@.skip(n as int).len() == 0);
        assert(space_hash_url(input@.skip(n as int)) =~= Seq::<char>::empty());
        assert(out@ + space_hash_url(input@.skip(n as int)) =~= out@);
    }
    out
}

/// Normalizes post body text by pattern substitution.
pub struct Formatter {}

impl Formatter {
    pub fn new() -> (r: Formatter) {
        Formatter {  }
    }

    /// Applies the four substitution rules, each once over the full string:
    /// newline indentation, mention linking, and the two numeric-hashtag
    /// separations.
    pub fn format_text(&self, text: &str) -> (r: String)
        ensures
            r@ == formatted_text(text@),
    {
        let cs = crate::chars::str_chars(text);
        let a = apply_indent(&cs);
        let b = apply_mentions(&a);
        let c = apply_hash_punct(&b);
        let d = apply_hash_url(&c);
        crate::chars::chars_to_string(&d)
    }
}

/// No suffix of `s` begins a raw `@handle` mention.
pub open spec fn no_raw_mention(s: Seq<char>) -> bool {
    forall|i: int| 0 <= i <= s.len() ==> !mention_match(#[trigger] s.skip(i))
}

/// No suffix of `s` begins a numeric hashtag glued to trailing punctuation.
pub open spec fn no_hash_punct_site(s: Seq<char>) -> bool {
    forall|i: int| 0 <= i <= s.len() ==> !hash_punct_match(#[trigger] s.skip(i))
}

/// No suffix of `s` begins a numeric hashtag glued to a literal `http`.
pub open spec fn no_hash_url_site(s: Seq<char>) -> bool {
    forall|i: int| 0 <= i <= s.len() ==> !hash_url_match(#[trigger] s.skip(i))
}

/// Mention linking does not change a text with no raw mention left in it.
pub proof fn lemma_link_mentions_identity(s: Seq<char>)
    requires
        no_raw_mention(s),
    ensures
        link_mentions(s) == s,
    decreases s.len(),
{
    if s.len() == 0 {
        assert(link_mentions(s) =~= s);
    } else {
        assert(s.skip(0) =~= s);
        assert(!mention_match(s));
        assert forall|i: int| 0 <= i <= s.skip(1).len() implies !mention_match(
            #[trigger] s.skip(1).skip(i),
        ) by {
            assert(s.skip(1).skip(i) =~= s.skip(1 + i));
        }
        lemma_link_mentions_identity(s.skip(1));
        assert(link_mentions(s) =~= s);
    }
}

/// The hashtag/punctuation rule does not change a text with no glued numeric
/// hashtag left in it.
pub proof fn lemma_space_hash_punct_identity(s: Seq<char>)
    requires
        no_hash_punct_site(s),
    ensures
        space_hash_punct(s) == s,
    decreases s.len(),
{
    if s.len() == 0 {
        assert(space_hash_punct(s) =~= s);
    } else {
        assert(s.skip(0) =~= s);
        assert(!hash_punct_match(s));
        assert forall|i: int| 0 <= i <= s.skip(1).len() implies !hash_punct_match(
            #[trigger] s.skip(1).skip(i),
        ) by {
            assert(s.skip(1).skip(i) =~= s.skip(1 + i));
        }
        lemma_space_hash_punct_identity(s.skip(1));
        assert(space_hash_punct(s) =~= s);
    }
}

/// The hashtag/URL rule does not change a text with no glued numeric hashtag
/// left in it.
pub proof fn lemma_space_hash_url_identity(s: Seq<char>)
    requires
        no_hash_url_site(s),
    ensures
        space_hash_url(s) == s,
    decreases s.len(),
{
    if s.len() == 0 {
        assert(space_hash_url(s) =~= s);
    } else {
        assert(s.skip(0) =~= s);
        assert(!hash_url_match(s));
        assert forall|i: int| 0 <= i <= s.skip(1).len() implies !hash_url_match(
            #[trigger] s.skip(1).skip(i),
        ) by {
            assert(s.skip(1).skip(i) =~= s.skip(1 + i));
        }
        lemma_space_hash_url_identity(s.skip(1));
        assert(space_hash_url(s) =~= s);
    }
}

/// The substitution rules other than indentation are idempotent on
/// already-formatted text: re-applying them does not change a string with no
/// raw mention and no glued numeric hashtag left in it.
pub proof fn lemma_format_rules_identity(s: Seq<char>)
    requires
        no_raw_mention(s),
        no_hash_punct_site(s),
        no_hash_url_site(s),
    ensures
        space_hash_url(space_hash_punct(link_mentions(s))) == s,
{
    lemma_link_mentions_identity(s);
    lemma_space_hash_punct_identity(s);
    lemma_space_hash_url_identity(s);
}

/// How many newlines `s` holds.
pub open spec fn newline_count(s: Seq<char>) -> int
    decreases s.len(),
{
    if s.len() == 0 {
        0
    } else {
        (if s[0] == '\n' {
            1int
        } else {
            0
        }) + newline_count(s.skip(1))
    }
}

pub proof fn lemma_newline_count_nonneg(s: Seq<char>)
    ensures
        newline_count(s) >= 0,
    decreases s.len(),
{
    if s.len() > 0 {
        lemma_newline_count_nonneg(s.skip(1));
    }
}

pub proof fn lemma_newline_count_concat(a: Seq<char>, b: Seq<char>)
    ensures
        newline_count(a + b) == newline_count(a) + newline_count(b),
    decreases a.len(),
{
    if a.len() == 0 {
        assert(a + b =~= b);
    } else {
        assert((a + b)[0] == a[0]);
        assert((a + b).skip(1) =~= a.skip(1) + b);
        lemma_newline_count_concat(a.skip(1), b);
    }
}

proof fn lemma_newline_count_single(c: char)
    ensures
        newline_count(seq![c]) == if c == '\n' {
            1int
        } else {
            0
        },
{
    assert(seq![c].skip(1) =~= Seq::<char>::empty());
    assert(newline_count(Seq::<char>::empty()) == 0);
}

/// The indentation rule adds two characters per newline and keeps the number
/// of newlines unchanged.
pub proof fn lemma_indent_grows(s: Seq<char>)
    ensures
        indent_newlines(s).len() == s.len() + 2 * newline_count(s),
        newline_count(indent_newlines(s)) == newline_count(s),
    decreases s.len(),
{
    if s.len() == 0 {
    } else if s[0] == '\n' {
        lemma_indent_grows(s.skip(1));
        let head = seq!['\n', ' ', ' '];
        lemma_newline_count_concat(head, indent_newlines(s.skip(1)));
        assert(newline_count(head) == 1) by {
            assert(head =~= seq!['\n'] + (seq![' '] + seq![' ']));
            lemma_newline_count_concat(seq!['\n'], seq![' '] + seq![' ']);
            lemma_newline_count_concat(seq![' '], seq![' ']);
            lemma_newline_count_single('\n');
            lemma_newline_count_single(' ');
        }
    } else {
        lemma_indent_grows(s.skip(1));
        lemma_newline_count_concat(seq![s[0]], indent_newlines(s.skip(1)));
        lemma_newline_count_single(s[0]);
    }
}

proof fn lemma_newline_count_contains(s: Seq<char>)
    requires
        s.contains('\n'),
    ensures
        newline_count(s) > 0,
    decreases s.len(),
{
    let i = choose|i: int| 0 <= i < s.len() && s[i] == '\n';
    if s[0] == '\n' {
        lemma_newline_count_nonneg(s.skip(1));
    } else {
        assert(s.skip(1)[i - 1] == '\n');
        assert(s.skip(1).contains('\n'));
        lemma_newline_count_contains(s.skip(1));
    }
}

/// The indentation rule is not idempotent: applied a second time to a text
/// that holds a newline, it adds indentation again and yields a longer string.
pub proof fn lemma_indent_not_idempotent(s: Seq<char>)
    requires
        s.contains('\n'),
    ensures
        indent_newlines(indent_newlines(s)) != indent_newlines(s),
{
    lemma_newline_count_contains(s);
    lemma_indent_grows(s);
    lemma_indent_grows(indent_newlines(s));
    assert(indent_newlines(indent_newlines(s)).len() > indent_newlines(s).len());
}

} // verus!
