//! Resolution of an accession to a download URL from the text of an Entrez
//! response, and the retry decisions around the query.
use vstd::prelude::*;
use vstd::string::StrSliceExecFns;
use crate::cli::{url_prefix_of, AccessionOptions, Provider};

verus! {

/// `p` occurs in `s` as a contiguous run of characters.
pub open spec fn contains_seq(s: Seq<char>, p: Seq<char>) -> bool {
    exists|i: int| 0 <= i && i + p.len() <= s.len() && #[trigger] s.subrange(i, i + p.len()) == p
}

/// Relies on `str::contains` with a `&str` pattern: whether `pat` occurs in `s`.
#[verifier::external_body]
fn str_contains(s: &str, pat: &str) -> (r: bool)
    ensures
        r == contains_seq(s@, pat@),
{
    s.contains(pat)
}

/// `s` with every occurrence of the non-empty `from` replaced by `to`, the
/// occurrences taken left to right without overlap.
pub open spec fn replaced(s: Seq<char>, from: Seq<char>, to: Seq<char>) -> Seq<char>
    decreases s.len(),
{
    if from.len() == 0 || s.len() < from.len() {
        s
    } else if s.subrange(0, from.len() as int) == from {
        to + replaced(s.subrange(from.len() as int, s.len() as int), from, to)
    } else {
        seq![s[0]] + replaced(s.drop_first(), from, to)
    }
}

/// Relies on `str::replace` with a non-empty `&str` pattern: every
/// non-overlapping occurrence of `from`, found left to right, is replaced by `to`.
#[verifier::external_body]
fn str_replace(s: &str, from: &str, to: &str) -> (r: String)
    requires
        from@.len() > 0,
    ensures
        r@ == replaced(s@, from@, to@),
{
    s.replace(from, to)
}

/// The response says that the request rate was limited.
pub open spec fn rate_limited(r: Seq<char>) -> bool {
    contains_seq(r, "API rate limit exceeded"@) || (r.len() > 0 && r[0] == '{' && (contains_seq(
        r,
        "rate limit"@,
    ) || contains_seq(r, "limit exceeded"@)))
}

/// Checks whether an Entrez response reports rate limiting.
pub fn is_rate_limited(response: &str) -> (r: bool)
    ensures
        r == rate_limited(response@),
{
    if str_contains(response, "API rate limit exceeded") {
        return true;
    }
    let starts_with_brace = response.unicode_len() > 0 && response.get_char(0) == '{';
    starts_with_brace && (str_contains(response, "rate limit") || str_contains(response, "limit exceeded"))
}

/// A character that separates the words of a response.
pub open spec fn is_separator(c: char) -> bool {
    c == ' ' || c == '\n'
}

/// The words of `s`, after the word `cur` already begun: split at every space
/// and newline, empty words included.
pub open spec fn split_words(s: Seq<char>, cur: Seq<char>) -> Seq<Seq<char>>
    decreases s.len(),
{
    if s.len() == 0 {
        seq![cur]
    } else if is_separator(s[0]) {
        seq![cur] + split_words(s.drop_first(), Seq::empty())
    } else {
        split_words(s.drop_first(), cur.push(s[0]))
    }
}

/// The words of a response.
pub open spec fn words(s: Seq<char>) -> Seq<Seq<char>> {
    split_words(s, Seq::empty())
}

/// A word is a download URL of the accession from the provider, of the
/// requested quality (full, or the `.lite` variant).
pub open spec fn url_word(w: Seq<char>, accession: Seq<char>, full_quality: bool, provider: Provider) -> bool {
    &&& contains_seq(w, "url="@)
    &&& contains_seq(w, accession)
    &&& !contains_seq(w, ".fastq"@)
    &&& !contains_seq(w, ".gz"@)
    &&& contains_seq(w, url_prefix_of(provider))
    &&& (full_quality ==> !contains_seq(w, ".lite"@))
    &&& (!full_quality ==> contains_seq(w, ".lite"@))
}

/// The URL that a word holds: without `url=` and quotes.
pub open spec fn clean_url(w: Seq<char>) -> Seq<char> {
    replaced(replaced(w, "url="@, ""@), "\""@, ""@)
}

/// The URL of the first word that is a download URL, if any.
pub open spec fn first_url(
    ws: Seq<Seq<char>>,
    accession: Seq<char>,
    full_quality: bool,
    provider: Provider,
) -> Option<Seq<char>>
    decreases ws.len(),
{
    if ws.len() == 0 {
        None
    } else if url_word(ws[0], accession, full_quality, provider) {
        Some(clean_url(ws[0]))
    } else {
        first_url(ws.drop_first(), accession, full_quality, provider)
    }
}

proof fn lemma_first_url_skip(
    done: Seq<Seq<char>>,
    rest: Seq<Seq<char>>,
    accession: Seq<char>,
    full_quality: bool,
    provider: Provider,
)
    requires
        forall|k: int| 0 <= k < done.len() ==> !url_word(#[trigger] done[k], accession, full_quality, provider),
    ensures
        first_url(done + rest, accession, full_quality, provider) == first_url(rest, accession, full_quality, provider),
    decreases done.len(),
{
    if done.len() > 0 {
        assert((done + rest).drop_first() =~= done.drop_first() + rest);
        assert((done + rest)[0] == done[0]);
        assert forall|k: int| 0 <= k < done.drop_first().len() implies !url_word(
            #[trigger] done.drop_first()[k],
            accession,
            full_quality,
            provider,
        ) by {
            assert(done.drop_first()[k] == done[k + 1]);
        }
        lemma_first_url_skip(done.drop_first(), rest, accession, full_quality, provider);
    } else {
        assert(done + rest =~= rest);
    }
}

/// Whether `word` is a download URL of the accession.
fn check_word(word: &str, accession: &str, full_quality: bool, provider: Provider) -> (r: bool)
    ensures
        r == url_word(word@, accession@, full_quality, provider),
{
    if !str_contains(word, "url=") || !str_contains(word, accession) {
        return false;
    }
    if str_contains(word, ".fastq") || str_contains(word, ".gz") {
        return false;
    }
    if !str_contains(word, provider.url_prefix()) {
        return false;
    }
    let lite = str_contains(word, ".lite");
    if full_quality {
        !lite
    } else {
        lite
    }
}

/// Finds the download URL of `accession` in an Entrez response: the first
/// word (words are split at spaces and newlines) that holds `url=`, the
/// accession and the provider's scheme, is neither FASTQ nor gzip, and is of
/// the requested quality; returned without `url=` and quotes.
pub fn parse_url(accession: &str, response: &str, full_quality: bool, provider: Provider) -> (r: Option<String>)
    ensures
        match first_url(words(response@), accession@, full_quality, provider) {
            Some(u) => r is Some && r->Some_0@ == u,
            None => r is None,
        },
{
    let n = response.unicode_len();
    let mut start: usize = 0;
    let mut i: usize = 0;
    let ghost mut done: Seq<Seq<char>> = Seq::empty();
    proof {
        assert(response@.subrange(0, n as int) =~= response@);
        assert(response@.subrange(0, 0) =~= Seq::<char>::empty());
    }
    while i <= n
        invariant
            n == response@.len(),
            start <= i <= n + 1,
            i <= n ==> words(response@) == done + split_words(
                response@.subrange(i as int, n as int),
                response@.subrange(start as int, i as int),
            ),
            i > n ==> words(response@) == done,
            forall|k: int| 0 <= k < done.len() ==> !url_word(#[trigger] done[k], accession@, full_quality, provider),
        decreases n + 1 - i,
    {
        let at_end = i == n;
        let is_sep = !at_end && {
            let c = response.get_char(i);
            c == ' ' || c == '\n'
        };
        if at_end || is_sep {
            let word = response.substring_char(start, i);
            let ghost cur = response@.subrange(start as int, i as int);
            let ghost tail = response@.subrange(i as int, n as int);
            proof {
                if at_end {
                    assert(tail =~= Seq::<char>::empty());
                } else {
                    assert(tail[0] == response@[i as int]);
                    assert(tail.drop_first() =~= response@.subrange(i + 1, n as int));
                }
            }
            if check_word(word, accession, full_quality, provider) {
                proof {
                    let rest = split_words(tail, cur);
                    assert(rest[0] == cur);
                    lemma_first_url_skip(done, rest, accession@, full_quality, provider);
                }
                proof {
                    reveal_strlit("url=");
                    reveal_strlit("\"");
                }
                let step = str_replace(word, "url=", "");
                let url = str_replace(step.as_str(), "\"", "");
                return Some(url);
            }
            proof {
                done = done.push(cur);
            }
            if at_end {
                proof {
                    assert(split_words(tail, cur) =~= seq![cur]);
                    assert(words(response@) =~= done);
                    lemma_first_url_skip(done, Seq::empty(), accession@, full_quality, provider);
                    assert(done + Seq::<Seq<char>>::empty() =~= done);
                }
                return None;
            }
            proof {
                {
                    assert(response@.subrange(i + 1, i + 1) =~= Seq::<char>::empty());
                    assert(seq![cur] + split_words(response@.subrange(i + 1, n as int), Seq::empty()) == split_words(
                        tail,
                        cur,
                    ));
                    assert(done.drop_last() + seq![cur] =~= done);
                }
            }
            start = i + 1;
        } else {
            proof {
                let tail = response@.subrange(i as int, n as int);
                assert(tail[0] == response@[i as int]);
                assert(tail.drop_first() =~= response@.subrange(i + 1, n as int));
                assert(response@.subrange(start as int, i as int).push(response@[i as int]) =~= response@.subrange(
                    start as int,
                    i + 1,
                ));
            }
        }
        i = i + 1;
    }
    proof {
        lemma_first_url_skip(done, Seq::empty(), accession@, full_quality, provider);
        assert(done + Seq::<Seq<char>>::empty() =~= done);
    }
    None
}


/// Finds a URL of the requested quality; failing that, and unless only lite
/// archives are wanted, one of full quality.
pub fn parse_url_with_fallback(
    accession: &str,
    response: &str,
    full_quality: bool,
    lite_only: bool,
    provider: Provider,
) -> (r: Option<String>)
    ensures
        match first_url(words(response@), accession@, full_quality, provider) {
            Some(u) => r is Some && r->Some_0@ == u,
            None => if lite_only {
                r is None
            } else {
                match first_url(words(response@), accession@, true, provider) {
                    Some(u) => r is Some && r->Some_0@ == u,
                    None => r is None,
                }
            },
        },
{
    match parse_url(accession, response, full_quality, provider) {
        Some(url) => Some(url),
        None => if lite_only {
            None
        } else {
            parse_url(accession, response, true, provider)
        },
    }
}

/// What to do after one query of the URL service.
#[derive(Debug, Clone)]
pub enum UrlStep {
    /// The service limited the rate: wait this many milliseconds and query again.
    Retry { delay_ms: usize },
    /// The URL to read from.
    Found(String),
    /// A URL was found, but the provider cannot be read from.
    Unsupported(String),
    /// No URL: give up.
    NotFound,
}

/// Whether another query may be made after `retry_count` rate-limited ones.
pub fn may_query(retry_count: usize, options: &AccessionOptions) -> (r: bool)
    ensures
        r == (retry_count < options.retry_limit),
{
    retry_count < options.retry_limit
}

/// Decides what follows a query's `response`, after `retry_count` earlier
/// rate-limited queries: wait longer after each of them, take the URL if the
/// provider can be read from, else give up.
pub fn identify_step(
    accession: &str,
    response: &str,
    options: &AccessionOptions,
    retry_count: usize,
) -> (r: UrlStep)
    requires
        (retry_count + 1) * options.retry_delay <= usize::MAX,
    ensures
        rate_limited(response@) ==> r == (UrlStep::Retry {
            delay_ms: ((retry_count + 1) * options.retry_delay) as usize,
        }),
        !rate_limited(response@) ==> match first_url(
            words(response@),
            accession@,
            options.full_quality,
            options.provider,
        ) {
            Some(u) => if options.provider is Aws {
                r is Unsupported && r->Unsupported_0@ == u
            } else {
                r is Found && r->Found_0@ == u
            },
            None => match first_url(words(response@), accession@, true, options.provider) {
                Some(u) => if options.provider is Aws {
                    r is Unsupported && r->Unsupported_0@ == u
                } else {
                    r is Found && r->Found_0@ == u
                },
                None => r is NotFound,
            },
        },
{
    if is_rate_limited(response) {
        proof {
            assert((retry_count + 1) * options.retry_delay == options.retry_delay + retry_count * options.retry_delay)
                by (nonlinear_arith);
        }
        return UrlStep::Retry { delay_ms: options.retry_delay + retry_count * options.retry_delay };
    }
    match parse_url_with_fallback(accession, response, options.full_quality, false, options.provider) {
        Some(url) => match options.provider {
            Provider::Https | Provider::Gcp => UrlStep::Found(url),
            Provider::Aws => UrlStep::Unsupported(url),
        },
        None => UrlStep::NotFound,
    }
}

} // verus!
