//! Parsing of raw header lines. Each header is a single string
//! `"Name: Value"`; the name is the text before the first `:`, the value the
//! text after it, both trimmed of surrounding ASCII whitespace. A line with
//! no `:` is silently dropped — a deliberate permissive-parsing behaviour,
//! not a validation error.

use vstd::prelude::*;

verus! {

/// ASCII whitespace, as trimmed from header names and values.
pub open spec fn is_ascii_space(c: char) -> bool {
    c == ' ' || c == '\t' || c == '\n' || c == '\r'
}

/// `s` without its leading ASCII whitespace.
pub open spec fn trim_left(s: Seq<char>) -> Seq<char>
    decreases s.len(),
{
    if s.len() > 0 && is_ascii_space(s[0]) {
        trim_left(s.drop_first())
    } else {
        s
    }
}

/// `s` without its trailing ASCII whitespace.
pub open spec fn trim_right(s: Seq<char>) -> Seq<char>
    decreases s.len(),
{
    if s.len() > 0 && is_ascii_space(s.last()) {
        trim_right(s.drop_last())
    } else {
        s
    }
}

/// `s` without surrounding ASCII whitespace.
pub open spec fn trim_spec(s: Seq<char>) -> Seq<char> {
    trim_right(trim_left(s))
}

/// The position of the first `:` in `s`; `s.len()` if there is none.
pub open spec fn first_colon(s: Seq<char>) -> int
    decreases s.len(),
{
    if s.len() == 0 {
        0
    } else if s[0] == ':' {
        0
    } else {
        1 + first_colon(s.drop_first())
    }
}

/// The (name, value) of a header line: the trimmed text before and after the
/// first `:`. `None` when the line holds no `:`.
pub open spec fn header_parts(s: Seq<char>) -> Option<(Seq<char>, Seq<char>)> {
    if first_colon(s) < s.len() {
        Some(
            (trim_spec(s.take(first_colon(s))), trim_spec(s.skip(first_colon(s) + 1))),
        )
    } else {
        None
    }
}

/// If everything before `i` is whitespace and `i` is the end or a
/// non-whitespace character, the left trim is the suffix from `i`.
proof fn lemma_trim_left_at(s: Seq<char>, i: int)
    requires
        0 <= i <= s.len(),
        forall|k: int| 0 <= k < i ==> is_ascii_space(#[trigger] s[k]),
        i == s.len() || !is_ascii_space(s[i]),
    ensures
        trim_left(s) == s.skip(i),
    decreases i,
{
    if i == 0 {
        assert(s.skip(0) =~= s);
    } else {
        lemma_trim_left_at(s.drop_first(), i - 1);
        assert(s.drop_first().skip(i - 1) =~= s.skip(i));
    }
}

/// If everything from `i` on is whitespace and `i` is the start or sits
/// right after a non-whitespace character, the right trim is the prefix up
/// to `i`.
proof fn lemma_trim_right_at(s: Seq<char>, i: int)
    requires
        0 <= i <= s.len(),
        forall|k: int| i <= k < s.len() ==> is_ascii_space(#[trigger] s[k]),
        i == 0 || !is_ascii_space(s[i - 1]),
    ensures
        trim_right(s) == s.take(i),
    decreases s.len() - i,
{
    if i == s.len() {
        assert(s.take(i) =~= s);
    } else {
        lemma_trim_right_at(s.drop_last(), i);
        assert(s.drop_last().take(i) =~= s.take(i));
    }
}

/// The first colon really is the first: everything before it is not a colon,
/// and it is a colon unless there is none at all.
proof fn lemma_first_colon_at(s: Seq<char>, i: int)
    requires
        0 <= i <= s.len(),
        forall|k: int| 0 <= k < i ==> s[k] != ':',
        i == s.len() || s[i] == ':',
    ensures
        first_colon(s) == i,
    decreases i,
{
    if i == 0 {
    } else {
        lemma_first_colon_at(s.drop_first(), i - 1);
    }
}

/// Whether a character is ASCII whitespace.
pub fn is_space_char(c: char) -> (r: bool)
    ensures
        r == is_ascii_space(c),
{
    c == ' ' || c == '\t' || c == '\n' || c == '\r'
}

/// The trimmed copy of a string: `s` without surrounding ASCII whitespace.
pub fn trim_of(s: &str) -> (r: String)
    ensures
        r@ == trim_spec(s@),
{
    let n: usize = s.unicode_len();
    let mut lo: usize = 0;
    while lo < n && is_space_char(s.get_char(lo))
        invariant
            lo <= n,
            n == s@.len(),
            forall|k: int| 0 <= k < lo ==> is_ascii_space(#[trigger] s@[k]),
        decreases n - lo,
    {
        lo = lo + 1;
    }
    let mut hi: usize = n;
    while hi > lo && is_space_char(s.get_char(hi - 1))
        invariant
            lo <= hi <= n,
            n == s@.len(),
            forall|k: int| 0 <= k < lo ==> is_ascii_space(#[trigger] s@[k]),
            forall|k: int| hi <= k < n ==> is_ascii_space(#[trigger] s@[k]),
        decreases hi,
    {
        hi = hi - 1;
    }
    proof {
        lemma_trim_left_at(s@, lo as int);
        let t = s@.skip(lo as int);
        lemma_trim_right_at(t, hi - lo);
        assert(t.take(hi - lo) =~= s@.subrange(lo as int, hi as int));
    }
    let out = s.substring_char(lo, hi);
    out.to_owned()
}

/// Parses one raw header line into its trimmed name and value; `None` when
/// the line holds no `:` separator (such a line is dropped by the caller).
pub fn parse_header_line(line: &str) -> (r: Option<(String, String)>)
    ensures
        match r {
            Some(pair) => {
                &&& header_parts(line@) matches Some(parts)
                &&& pair.0@ == parts.0
                &&& pair.1@ == parts.1
            },
            None => header_parts(line@) is None,
        },
{
    let n: usize = line.unicode_len();
    let mut i: usize = 0;
    while i < n && line.get_char(i) != ':'
        invariant
            i <= n,
            n == line@.len(),
            forall|k: int| 0 <= k < i ==> line@[k] != ':',
        decreases n - i,
    {
        i = i + 1;
    }
    proof {
        lemma_first_colon_at(line@, i as int);
    }
    if i == n {
        None
    } else {
        let name_part = line.substring_char(0, i);
        let value_part = line.substring_char(i + 1, n);
        proof {
            assert(line@.subrange(0, i as int) =~= line@.take(i as int));
            assert(line@.subrange(i + 1, n as int) =~= line@.skip(i + 1));
        }
        Some((trim_of(name_part), trim_of(value_part)))
    }
}

/// The headers parsed from a sequence of raw lines, in order, with the
/// malformed (colon-free) lines dropped.
pub open spec fn parsed_headers(lines: Seq<Seq<char>>) -> Seq<(Seq<char>, Seq<char>)>
    decreases lines.len(),
{
    if lines.len() == 0 {
        Seq::empty()
    } else {
        match header_parts(lines[0]) {
            Option::Some(parts) => seq![parts] + parsed_headers(lines.drop_first()),
            Option::None => parsed_headers(lines.drop_first()),
        }
    }
}

proof fn lemma_parsed_headers_push(lines: Seq<Seq<char>>, last: Seq<char>)
    ensures
        parsed_headers(lines.push(last)) == parsed_headers(lines) + (match header_parts(last) {
            Option::Some(parts) => seq![parts],
            Option::None => Seq::empty(),
        }),
    decreases lines.len(),
{
    let tail: Seq<(Seq<char>, Seq<char>)> = match header_parts(last) {
        Option::Some(parts) => seq![parts],
        Option::None => Seq::empty(),
    };
    if lines.len() == 0 {
        assert(lines.push(last).drop_first() =~= Seq::<Seq<char>>::empty());
        assert(parsed_headers(Seq::<Seq<char>>::empty()) =~= Seq::<(Seq<char>, Seq<char>)>::empty());
        assert(parsed_headers(lines) + tail =~= tail);
        assert(lines.push(last)[0] == last);
        match header_parts(last) {
            Option::Some(parts) => {
                assert(seq![parts] + parsed_headers(Seq::<Seq<char>>::empty()) =~= tail);
            },
            Option::None => {},
        }
    } else {
        assert(lines.push(last).drop_first() =~= lines.drop_first().push(last));
        lemma_parsed_headers_push(lines.drop_first(), last);
        match header_parts(lines[0]) {
            Option::Some(parts) => {
                assert(seq![parts] + (parsed_headers(lines.drop_first()) + tail) =~= (seq![parts]
                    + parsed_headers(lines.drop_first())) + tail);
            },
            Option::None => {},
        }
    }
    assert(parsed_headers(lines.push(last)) =~= parsed_headers(lines) + tail);
}

/// The view of a list of parsed (name, value) pairs.
pub open spec fn header_pairs_view(pairs: Seq<(String, String)>) -> Seq<(Seq<char>, Seq<char>)> {
    pairs.map_values(|p: (String, String)| (p.0@, p.1@))
}

/// Parses every raw header line, in order, dropping the lines with no `:`.
/// This is the full set of extra headers applied to an outgoing request.
pub fn parse_headers(lines: &Vec<String>) -> (r: Vec<(String, String)>)
    ensures
        header_pairs_view(r@) == parsed_headers(lines.deep_view()),
{
    let ghost all = lines.deep_view();
    let mut r: Vec<(String, String)> = Vec::new();
    let mut i: usize = 0;
    while i < lines.len()
        invariant
            i <= lines@.len(),
            all == lines.deep_view(),
            all.len() == lines@.len(),
            forall|k: int| 0 <= k < all.len() ==> #[trigger] all[k] == lines@[k]@,
            header_pairs_view(r@) == parsed_headers(all.take(i as int)),
        decreases lines@.len() - i,
    {
        let line: &String = &lines[i];
        let ghost before = r@;
        match parse_header_line(line.as_str()) {
            Some(pair) => {
                r.push(pair);
                proof {
                    assert(header_pairs_view(r@) =~= header_pairs_view(before) + seq![
                        (r@[r@.len() - 1].0@, r@[r@.len() - 1].1@),
                    ]);
                }
            },
            None => {},
        }
        proof {
            lemma_parsed_headers_push(all.take(i as int), all[i as int]);
            assert(all.take(i as int).push(all[i as int]) =~= all.take(i + 1));
            assert(header_pairs_view(r@) =~= parsed_headers(all.take(i + 1)));
        }
        i = i + 1;
    }
    proof {
        assert(all.take(all.len() as int) =~= all);
    }
    r
}

} // verus!
