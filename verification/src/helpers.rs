//! Text helpers: extracting the destination file name from a URL, and
//! parsing curl-style command lines into a URL and its raw header strings.

use vstd::prelude::*;
use crate::errors::DownloadError;
use crate::headers::{is_ascii_space, is_space_char};

verus! {

/// The characters of `s` after its last `/`; the whole of `s` if it holds no
/// `/`; empty if `s` ends with `/` or is empty.
pub open spec fn after_last_slash(s: Seq<char>) -> Seq<char>
    decreases s.len(),
{
    if s.len() == 0 {
        Seq::empty()
    } else if s.last() == '/' {
        Seq::empty()
    } else {
        after_last_slash(s.drop_last()).push(s.last())
    }
}

/// If every character from position `cut` on is not a `/`, and `cut` is
/// either the start of `s` or sits right after a `/`, then the suffix from
/// `cut` is exactly the text after the last slash.
proof fn lemma_after_last_slash_at_cut(s: Seq<char>, cut: int)
    requires
        0 <= cut <= s.len(),
        cut == 0 || s[cut - 1] == '/',
        forall|k: int| cut <= k < s.len() ==> s[k] != '/',
    ensures
        after_last_slash(s) == s.skip(cut),
    decreases s.len(),
{
    if cut == s.len() {
        if s.len() == 0 {
            assert(s.skip(cut) =~= Seq::<char>::empty());
        } else {
            assert(s.last() == '/');
            assert(after_last_slash(s) =~= s.skip(cut));
        }
    } else {
        assert(s[s.len() - 1] != '/');
        lemma_after_last_slash_at_cut(s.drop_last(), cut);
        assert(s.skip(cut) =~= s.drop_last().skip(cut).push(s.last()));
    }
}

/// The final path segment of a URL: the text after the last `/`, used as the
/// destination file name. Returns `None` when that segment is empty (the URL
/// ends in `/` or is empty), i.e. when the job has no extractable file name.
pub fn file_name_of_url(url: &str) -> (r: Option<String>)
    ensures
        match r {
            Some(name) => after_last_slash(url@).len() > 0 && name@ == after_last_slash(url@),
            None => after_last_slash(url@).len() == 0,
        },
{
    let n: usize = url.unicode_len();
    let mut cut: usize = 0;
    let mut j: usize = 0;
    while j < n
        invariant
            cut <= j <= n,
            n == url@.len(),
            cut == 0 || url@[cut - 1] == '/',
            forall|k: int| cut <= k < j ==> url@[k] != '/',
        decreases n - j,
    {
        if url.get_char(j) == '/' {
            cut = j + 1;
        }
        j = j + 1;
    }
    proof {
        lemma_after_last_slash_at_cut(url@, cut as int);
    }
    if cut == n {
        None
    } else {
        let name = url.substring_char(cut, n);
        proof {
            assert(url@.subrange(cut as int, n as int) =~= url@.skip(cut as int));
        }
        Some(name.to_owned())
    }
}

/// The worker-pool size a job submission actually uses: the requested thread
/// count, clamped to the parallelism the machine offers. Resolved once, when
/// jobs are submitted, and passed by value from then on.
pub fn effective_threads(requested: usize, available: usize) -> (r: usize)
    ensures
        r == if requested > available {
            available
        } else {
            requested
        },
{
    if requested > available {
        available
    } else {
        requested
    }
}

/// Whether two strings hold the same characters.
pub fn str_eq(a: &str, b: &str) -> (r: bool)
    ensures
        r == (a@ == b@),
{
    let n: usize = a.unicode_len();
    if n != b.unicode_len() {
        return false;
    }
    let mut i: usize = 0;
    while i < n
        invariant
            i <= n,
            n == a@.len() == b@.len(),
            forall|k: int| 0 <= k < i ==> a@[k] == b@[k],
        decreases n - i,
    {
        if a.get_char(i) != b.get_char(i) {
            return false;
        }
        i = i + 1;
    }
    proof {
        assert(a@ =~= b@);
    }
    true
}

/// The length of the leading run of non-whitespace characters of `s`.
pub open spec fn token_end(s: Seq<char>) -> int
    decreases s.len(),
{
    if s.len() == 0 || is_ascii_space(s[0]) {
        0
    } else {
        1 + token_end(s.drop_first())
    }
}

/// The leading token run is never empty at a non-whitespace character and
/// never runs past the end of the text.
proof fn lemma_token_end_bounds(s: Seq<char>)
    ensures
        0 <= token_end(s) <= s.len(),
        s.len() > 0 && !is_ascii_space(s[0]) ==> 1 <= token_end(s),
    decreases s.len(),
{
    if s.len() > 0 && !is_ascii_space(s[0]) {
        lemma_token_end_bounds(s.drop_first());
    }
}

/// The whitespace-separated tokens of `s`, in order.
pub open spec fn tokens_of(s: Seq<char>) -> Seq<Seq<char>>
    decreases s.len(),
    via tokens_of_decreases
{
    if s.len() == 0 {
        Seq::empty()
    } else if is_ascii_space(s[0]) {
        tokens_of(s.drop_first())
    } else {
        seq![s.take(token_end(s))] + tokens_of(s.skip(token_end(s)))
    }
}

#[via_fn]
proof fn tokens_of_decreases(s: Seq<char>) {
    lemma_token_end_bounds(s);
}

/// If the first `j` characters are non-whitespace and position `j` is the
/// end or whitespace, the leading token run is exactly `j` long.
proof fn lemma_token_end_at(s: Seq<char>, j: int)
    requires
        0 <= j <= s.len(),
        forall|k: int| 0 <= k < j ==> !is_ascii_space(#[trigger] s[k]),
        j == s.len() || is_ascii_space(s[j]),
    ensures
        token_end(s) == j,
    decreases j,
{
    if j > 0 {
        lemma_token_end_at(s.drop_first(), j - 1);
    }
}

/// Splits `command` on ASCII whitespace into its tokens.
pub fn tokenize(command: &str) -> (r: Vec<String>)
    ensures
        r.deep_view() == tokens_of(command@),
{
    let n: usize = command.unicode_len();
    let mut toks: Vec<String> = Vec::new();
    let mut i: usize = 0;
    proof {
        assert(command@.skip(0) =~= command@);
        assert(toks.deep_view() =~= Seq::<Seq<char>>::empty());
        assert(Seq::<Seq<char>>::empty() + tokens_of(command@) =~= tokens_of(command@));
    }
    while i < n
        invariant
            i <= n,
            n == command@.len(),
            tokens_of(command@) == toks.deep_view() + tokens_of(command@.skip(i as int)),
        decreases n - i,
    {
        if is_space_char(command.get_char(i)) {
            proof {
                assert(command@.skip(i as int).drop_first() =~= command@.skip(i + 1));
            }
            i = i + 1;
        } else {
            let mut j: usize = i + 1;
            while j < n && !is_space_char(command.get_char(j))
                invariant
                    i < j <= n,
                    n == command@.len(),
                    forall|k: int| i <= k < j ==> !is_ascii_space(#[trigger] command@[k]),
                decreases n - j,
            {
                j = j + 1;
            }
            let tok = command.substring_char(i, j);
            let ghost rest = command@.skip(i as int);
            proof {
                assert(forall|k: int|
                    0 <= k < j - i ==> rest[k] == #[trigger] command@[k + i]
                        && !is_ascii_space(command@[k + i]));
                lemma_token_end_at(rest, j - i);
                assert(rest.take(j - i) =~= command@.subrange(i as int, j as int));
                assert(rest.skip(j - i) =~= command@.skip(j as int));
                assert((toks.deep_view() + seq![command@.subrange(i as int, j as int)])
                    + tokens_of(command@.skip(j as int)) =~= toks.deep_view() + (seq![
                    command@.subrange(i as int, j as int),
                ] + tokens_of(command@.skip(j as int))));
            }
            let ghost before = toks.deep_view();
            toks.push(tok.to_owned());
            proof {
                assert(toks.deep_view() =~= before + seq![command@.subrange(i as int, j as int)]);
            }
            i = j;
        }
    }
    proof {
        assert(command@.skip(n as int) =~= Seq::<char>::empty());
        assert(toks.deep_view() + Seq::<Seq<char>>::empty() =~= toks.deep_view());
    }
    toks
}

/// Whether a token is the flag that announces a header argument.
pub open spec fn is_header_flag(t: Seq<char>) -> bool {
    t == "-H"@ || t == "--header"@
}

/// Whether a token names an HTTP or HTTPS URL.
pub open spec fn is_url_token(t: Seq<char>) -> bool {
    (t.len() >= 7 && t.take(7) == "http://"@) || (t.len() >= 8 && t.take(8) == "https://"@)
}

/// The headers collected from a curl-style token list: each `-H`/`--header`
/// flag takes the following token, in order; a trailing flag with nothing
/// after it is ignored.
pub open spec fn curl_headers(tokens: Seq<Seq<char>>) -> Seq<Seq<char>>
    decreases tokens.len(),
{
    if tokens.len() == 0 {
        Seq::empty()
    } else if is_header_flag(tokens[0]) {
        if tokens.len() >= 2 {
            seq![tokens[1]] + curl_headers(tokens.skip(2))
        } else {
            Seq::empty()
        }
    } else {
        curl_headers(tokens.skip(1))
    }
}

/// The URL picked from a curl-style token list: the last token that starts
/// with `http://` or `https://` and is not consumed by a header flag. `None`
/// when there is no such token.
pub open spec fn curl_url(tokens: Seq<Seq<char>>) -> Option<Seq<char>>
    decreases tokens.len(),
{
    if tokens.len() == 0 {
        Option::None
    } else if is_header_flag(tokens[0]) {
        if tokens.len() >= 2 {
            curl_url(tokens.skip(2))
        } else {
            Option::None
        }
    } else if is_url_token(tokens[0]) {
        match curl_url(tokens.skip(1)) {
            Option::Some(u) => Option::Some(u),
            Option::None => Option::Some(tokens[0]),
        }
    } else {
        curl_url(tokens.skip(1))
    }
}

/// Whether a token is `-H` or `--header`.
fn header_flag(t: &str) -> (r: bool)
    ensures
        r == is_header_flag(t@),
{
    str_eq(t, "-H") || str_eq(t, "--header")
}

/// Whether a token starts with `http://` or `https://`.
fn url_token(t: &str) -> (r: bool)
    ensures
        r == is_url_token(t@),
{
    let n: usize = t.unicode_len();
    if n >= 7 && str_eq(t.substring_char(0, 7), "http://") {
        proof {
            assert(t@.subrange(0, 7) =~= t@.take(7));
        }
        return true;
    }
    if n >= 8 && str_eq(t.substring_char(0, 8), "https://") {
        proof {
            assert(t@.subrange(0, 8) =~= t@.take(8));
        }
        return true;
    }
    proof {
        if n >= 7 {
            assert(t@.subrange(0, 7) =~= t@.take(7));
        }
        if n >= 8 {
            assert(t@.subrange(0, 8) =~= t@.take(8));
        }
    }
    false
}

/// Parses a curl-style command line into the requested URL and its raw
/// header strings. Tokens are split on ASCII whitespace; every `-H` or
/// `--header` flag takes the next token as one raw header; the URL is the
/// last remaining token that starts with `http://` or `https://`. A command
/// with no such token is rejected with an input error.
pub fn parse_curl_command(command: &str) -> (r: Result<(String, Vec<String>), DownloadError>)
    ensures
        match r {
            Ok(pair) => {
                &&& curl_url(tokens_of(command@)) == Some(pair.0@)
                &&& pair.1.deep_view() == curl_headers(tokens_of(command@))
            },
            Err(e) => {
                &&& curl_url(tokens_of(command@)) is None
                &&& e is Input
            },
        },
{
    let toks = tokenize(command);
    let ghost all = tokens_of(command@);
    let n: usize = toks.len();
    let mut url: Option<String> = Option::None;
    let mut headers: Vec<String> = Vec::new();
    let mut i: usize = 0;
    proof {
        assert(all.skip(0) =~= all);
        assert(headers.deep_view() =~= Seq::<Seq<char>>::empty());
        assert(Seq::<Seq<char>>::empty() + curl_headers(all) =~= curl_headers(all));
    }
    while i < n
        invariant
            i <= n,
            n == all.len(),
            toks.deep_view() == all,
            toks@.len() == all.len(),
            forall|k: int| 0 <= k < all.len() ==> #[trigger] toks@[k]@ == all[k],
            curl_headers(all) == headers.deep_view() + curl_headers(all.skip(i as int)),
            curl_url(all) == (match curl_url(all.skip(i as int)) {
                Option::Some(u) => Option::Some(u),
                Option::None => match url {
                    Option::Some(u) => Option::Some(u@),
                    Option::None => Option::None::<Seq<char>>,
                },
            }),
        decreases n - i,
    {
        let ghost rest = all.skip(i as int);
        let tok: &String = &toks[i];
        proof {
            assert(rest[0] == all[i as int]);
        }
        if header_flag(tok.as_str()) {
            if i + 1 < n {
                let ghost before = headers.deep_view();
                headers.push(toks[i + 1].clone());
                proof {
                    assert(rest[1] == all[i + 1]);
                    assert(rest.skip(2) =~= all.skip(i + 2));
                    assert(headers.deep_view() =~= before + seq![all[i + 1]]);
                    assert((before + seq![all[i + 1]]) + curl_headers(all.skip(i + 2)) =~= before
                        + (seq![all[i + 1]] + curl_headers(all.skip(i + 2))));
                }
                i = i + 2;
            } else {
                proof {
                    assert(headers.deep_view() + Seq::<Seq<char>>::empty()
                        =~= headers.deep_view());
                }
                i = i + 1;
            }
        } else {
            proof {
                assert(rest.skip(1) =~= all.skip(i + 1));
            }
            if url_token(tok.as_str()) {
                url = Option::Some(tok.clone());
            }
            i = i + 1;
        }
    }
    proof {
        assert(all.skip(n as int) =~= Seq::<Seq<char>>::empty());
        assert(headers.deep_view() + Seq::<Seq<char>>::empty() =~= headers.deep_view());
    }
    match url {
        Option::Some(u) => Ok((u, headers)),
        Option::None => {
            let message = String::from_str("no URL in curl command");
            Err(DownloadError::Input(message))
        },
    }
}

/// The URLs drawn from a list of curl-style lines, one per line, in order;
/// `None` when some line holds no URL.
pub open spec fn curl_line_urls(lines: Seq<Seq<char>>) -> Option<Seq<Seq<char>>>
    decreases lines.len(),
{
    if lines.len() == 0 {
        Option::Some(Seq::empty())
    } else {
        match curl_url(tokens_of(lines[0])) {
            Option::None => Option::None,
            Option::Some(u) => match curl_line_urls(lines.drop_first()) {
                Option::None => Option::None,
                Option::Some(rest) => Option::Some(seq![u] + rest),
            },
        }
    }
}

/// The headers that a list of curl-style lines leaves in force: those of the
/// last line. Each parsed line replaces the previous line's headers, so only
/// the last line's survive.
pub open spec fn last_curl_headers(lines: Seq<Seq<char>>) -> Seq<Seq<char>> {
    if lines.len() == 0 {
        Seq::empty()
    } else {
        curl_headers(tokens_of(lines.last()))
    }
}

/// Gathers the download jobs of one submission: the URLs to fetch and the
/// raw header strings applied to every request.
///
/// With no input file the command-line URLs are taken as they are, with no
/// headers. With a file, each line is one URL — or, in curl format, one
/// curl-style command whose URL is taken and whose headers replace those of
/// the lines before it, so the last line's headers apply to every job. A
/// curl line with no URL rejects the whole submission, as does an empty URL
/// list.
#[verifier::loop_isolation(false)]
pub fn collect_jobs(cli_urls: Vec<String>, file_lines: Option<Vec<String>>, curl_format: bool) -> (r:
    Result<(Vec<String>, Vec<String>), DownloadError>)
    ensures
        match file_lines {
            Option::Some(lines) => {
                if curl_format {
                    match r {
                        Ok(pair) => {
                            &&& curl_line_urls(lines.deep_view()) == Option::Some(
                                pair.0.deep_view(),
                            )
                            &&& pair.0@.len() > 0
                            &&& pair.1.deep_view() == last_curl_headers(lines.deep_view())
                        },
                        Err(e) => {
                            &&& e is Input
                            &&& (curl_line_urls(lines.deep_view()) is None || curl_line_urls(
                                lines.deep_view(),
                            ).unwrap().len() == 0)
                        },
                    }
                } else {
                    match r {
                        Ok(pair) => {
                            &&& pair.0.deep_view() == lines.deep_view()
                            &&& lines@.len() > 0
                            &&& pair.1@.len() == 0
                        },
                        Err(e) => e is Input && lines@.len() == 0,
                    }
                }
            },
            Option::None => {
                match r {
                    Ok(pair) => {
                        &&& pair.0.deep_view() == cli_urls.deep_view()
                        &&& cli_urls@.len() > 0
                        &&& pair.1@.len() == 0
                    },
                    Err(e) => e is Input && cli_urls@.len() == 0,
                }
            },
        },
{
    let mut urls: Vec<String> = Vec::new();
    let mut headers: Vec<String> = Vec::new();
    match file_lines {
        Option::Some(lines) => {
            if curl_format {
                let ghost all = lines.deep_view();
                let n: usize = lines.len();
                let mut i: usize = 0;
                proof {
                    assert(all.skip(0) =~= all);
                }
                while i < n
                    invariant
                        i <= n,
                        n == all.len(),
                        forall|k: int| 0 <= k < all.len() ==> #[trigger] all[k] == lines@[k]@,
                        urls@.len() == i,
                        curl_line_urls(all) == (match curl_line_urls(all.skip(i as int)) {
                            Option::Some(rest) => Option::Some(urls.deep_view() + rest),
                            Option::None => Option::None::<Seq<Seq<char>>>,
                        }),
                        i == 0 ==> headers@.len() == 0,
                        i > 0 ==> headers.deep_view() == curl_headers(tokens_of(all[i - 1])),
                    decreases n - i,
                {
                    let ghost rest = all.skip(i as int);
                    let ghost before = urls.deep_view();
                    proof {
                        assert(rest[0] == all[i as int]);
                        assert(rest.drop_first() =~= all.skip(i + 1));
                    }
                    let line: &String = &lines[i];
                    match parse_curl_command(line.as_str()) {
                        Ok(pair) => {
                            urls.push(pair.0);
                            headers = pair.1;
                        },
                        Err(e) => {
                            return Err(e);
                        },
                    }
                    i = i + 1;
                    proof {
                        let u = curl_url(tokens_of(rest[0])).unwrap();
                        assert(urls.deep_view() =~= before.push(u));
                        match curl_line_urls(all.skip(i as int)) {
                            Option::Some(tail) => {
                                assert(curl_line_urls(rest) == Option::Some(seq![u] + tail));
                                assert(before + (seq![u] + tail) =~= before.push(u) + tail);
                            },
                            Option::None => {
                                assert(curl_line_urls(rest) is None);
                            },
                        }
                    }
                }
                proof {
                    assert(all.skip(n as int) =~= Seq::<Seq<char>>::empty());
                    assert(urls.deep_view() + Seq::<Seq<char>>::empty() =~= urls.deep_view());
                    if n > 0 {
                        assert(all[n - 1] == all.last());
                    }
                }
            } else {
                urls = lines;
            }
        },
        Option::None => {
            urls = cli_urls;
        },
    }
    if urls.len() == 0 {
        let message = String::from_str("no URLs provided");
        return Err(DownloadError::Input(message));
    }
    Ok((urls, headers))
}

} // verus!
