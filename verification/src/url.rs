//! Target addresses: the request URLs that a word of the wordlist gives
//! under a target, the depth of a target and its canonical form.
use crate::config::ConfigurationView;
use crate::handles::Handles;
use crate::text::{
    ends_with, ends_with_slash, split, split_on, split_terminator, starts_with_double_slash,
    starts_with_two, strip_leading, strip_leading_slashes,
};
use reqwest::Url;
use std::sync::Arc;
use vstd::prelude::*;

verus! {

/// Why no URL could be made.
#[derive(Debug, Clone, Copy, PartialEq, Eq)]
pub enum UrlError {
    /// The word of the wordlist is itself an absolute URL. Joined to a
    /// target it would replace the target, so it is never joined.
    WordIsUrl,
    /// The text could not be parsed as a URL, or the word could not be
    /// resolved against the target.
    Unparsable,
    /// The URL has no hierarchical path, so it has no path segments.
    NoPathSegments,
    /// The URL or the query parameters are longer than query parameters are
    /// added for.
    TooLong,
}

impl UrlError {
    /// The error in words.
    pub fn message(&self) -> (r: String)
        ensures
            r@ == match *self {
                UrlError::WordIsUrl => "word from wordlist is a URL, skipping..."@,
                UrlError::Unparsable => "text cannot be parsed as a URL"@,
                UrlError::NoPathSegments => "No path segments found"@,
                UrlError::TooLong => "too long to add query parameters"@,
            },
    {
        match self {
            UrlError::WordIsUrl => "word from wordlist is a URL, skipping...".to_owned(),
            UrlError::Unparsable => "text cannot be parsed as a URL".to_owned(),
            UrlError::NoPathSegments => "No path segments found".to_owned(),
            UrlError::TooLong => "too long to add query parameters".to_owned(),
        }
    }
}

/// A parsed URL as mathematical values.
pub ghost struct UrlView {
    /// The URL written out in full.
    pub text: Seq<char>,
    /// Its path: the part after the authority, up to the query or fragment.
    pub path: Seq<char>,
}

/// What this library reads of a parsed URL: its text in full and its path.
#[derive(Debug, PartialEq, Eq)]
pub struct ParsedUrl {
    text: String,
    path: String,
}

impl View for ParsedUrl {
    type V = UrlView;

    closed spec fn view(&self) -> UrlView {
        UrlView { text: self.text@, path: self.path@ }
    }
}

impl DeepView for ParsedUrl {
    type V = UrlView;

    open spec fn deep_view(&self) -> UrlView {
        self@
    }
}

impl Clone for ParsedUrl {
    fn clone(&self) -> (r: Self)
        ensures
            r == *self,
    {
        ParsedUrl { text: self.text.clone(), path: self.path.clone() }
    }
}

/// Names what `reqwest::Url::parse` makes of `input`: the text and the path
/// of the URL that it returns, and `None` where it returns an error.
pub uninterp spec fn url_parse(input: Seq<char>) -> Option<UrlView>;

/// Names what `reqwest::Url::join` makes of `reference` on the URL that
/// `reqwest::Url::parse` returns for `base`: the text and the path of the
/// resolved URL, and `None` where either call returns an error.
pub uninterp spec fn url_join(base: Seq<char>, reference: Seq<char>) -> Option<UrlView>;

/// Names what `reqwest::Url::parse_with_params` makes of `input` and the
/// `(name, value)` pairs: the text and the path of the URL that it returns,
/// and `None` where it returns an error.
pub uninterp spec fn url_parse_with_params(
    input: Seq<char>,
    pairs: Seq<(Seq<char>, Seq<char>)>,
) -> Option<UrlView>;

/// Calls `reqwest::Url::parse` on `input` and keeps of the URL it returns
/// what `as_str` and `path` give. The contract only gives that result its name.
#[verifier::external_body]
fn parse_outside(input: &str) -> (r: Option<ParsedUrl>)
    ensures
        r.deep_view() == url_parse(input@),
{
    let url = Url::parse(input).ok()?;
    Some(ParsedUrl { text: url.as_str().to_string(), path: url.path().to_string() })
}

/// Calls `reqwest::Url::parse` on `base` and `reqwest::Url::join` with
/// `reference` on the URL it returns, and keeps of the resolved URL what
/// `as_str` and `path` give. The contract only gives that result its name.
#[verifier::external_body]
fn join_outside(base: &str, reference: &str) -> (r: Option<ParsedUrl>)
    ensures
        r.deep_view() == url_join(base@, reference@),
{
    let url = Url::parse(base).ok()?.join(reference).ok()?;
    Some(ParsedUrl { text: url.as_str().to_string(), path: url.path().to_string() })
}

/// The most characters that a URL may have, and that query parameters may
/// have together, for parameters to be added.
pub const QUERY_LIMIT: usize = 0x10_0000;

/// The room that query parameters take: the characters of each name and
/// value, and one more for each pair.
pub open spec fn pairs_size(pairs: Seq<(Seq<char>, Seq<char>)>) -> nat
    decreases pairs.len(),
{
    if pairs.len() == 0 {
        0
    } else {
        pairs_size(pairs.drop_last()) + pairs.last().0.len() + pairs.last().1.len() + 1
    }
}

/// Neither the URL nor the query parameters are longer than parameters are
/// added for.
pub open spec fn query_fits(text: Seq<char>, pairs: Seq<(Seq<char>, Seq<char>)>) -> bool {
    text.len() <= QUERY_LIMIT && pairs_size(pairs) <= QUERY_LIMIT
}

/// Calls `reqwest::Url::parse_with_params` on `input` and `pairs` and keeps
/// of the URL it returns what `as_str` and `path` give. The contract only
/// gives that result its name.
///
/// `parse_with_params` panics where the text of the URL that it builds is
/// longer than `u32::MAX` bytes. The bound on the lengths keeps that text
/// far shorter.
#[verifier::external_body]
fn parse_with_params_outside(input: &str, pairs: &Vec<(String, String)>) -> (r: Option<ParsedUrl>)
    requires
        query_fits(input@, pairs.deep_view()),
    ensures
        r.deep_view() == url_parse_with_params(input@, pairs.deep_view()),
{
    let url = Url::parse_with_params(input, pairs).ok()?;
    Some(ParsedUrl { text: url.as_str().to_string(), path: url.path().to_string() })
}

/// The segments of a path: the pieces between the slashes after its leading
/// slash. A path that does not begin with a slash has none.
pub open spec fn segments(path: Seq<char>) -> Option<Seq<Seq<char>>> {
    if path.len() > 0 && path[0] == '/' {
        Some(split(path.skip(1), '/'))
    } else {
        None
    }
}

/// The number of characters of the last segment of a path, where a slash at
/// the very end of the path ends the last segment and does not begin another.
/// It is 0 where there is no segment.
pub open spec fn last_segment_len(path: Seq<char>) -> nat {
    if path.len() > 0 && path[0] == '/' {
        let pieces = split_terminator(path.skip(1), '/');
        if pieces.len() == 0 {
            0
        } else {
            pieces.last().len()
        }
    } else {
        0
    }
}

/// The depth of a parsed URL: the number of its path segments.
pub open spec fn depth_of(url: UrlView) -> Result<nat, UrlError> {
    match segments(url.path) {
        Some(pieces) => Ok(pieces.len()),
        None => Err(UrlError::NoPathSegments),
    }
}

/// A URL with query parameters added, or why there is none.
pub open spec fn with_params_spec(text: Seq<char>, pairs: Seq<(Seq<char>, Seq<char>)>) -> Result<
    UrlView,
    UrlError,
> {
    if !query_fits(text, pairs) {
        Err(UrlError::TooLong)
    } else {
        match url_parse_with_params(text, pairs) {
            Some(url) => Ok(url),
            None => Err(UrlError::Unparsable),
        }
    }
}

/// A result with its URL as mathematical values.
pub open spec fn viewed(r: Result<ParsedUrl, UrlError>) -> Result<UrlView, UrlError> {
    match r {
        Ok(url) => Ok(url@),
        Err(e) => Err(e),
    }
}

/// The first pairs never take more room than all of them.
pub proof fn lemma_pairs_size_grows(pairs: Seq<(Seq<char>, Seq<char>)>, n: int)
    requires
        0 <= n <= pairs.len(),
    ensures
        pairs_size(pairs.take(n)) <= pairs_size(pairs),
    decreases pairs.len() - n,
{
    if n < pairs.len() {
        lemma_pairs_size_grows(pairs, n + 1);
        assert(pairs.take(n + 1).drop_last() == pairs.take(n));
    } else {
        assert(pairs.take(n) == pairs);
    }
}

/// Tells whether query parameters are added to `text`.
fn fits(text: &str, pairs: &Vec<(String, String)>) -> (r: bool)
    ensures
        r == query_fits(text@, pairs.deep_view()),
{
    if text.unicode_len() > QUERY_LIMIT {
        return false;
    }
    let ghost all = pairs.deep_view();
    let mut total: usize = 0;
    let mut i: usize = 0;
    assert(all.take(0) == Seq::<(Seq<char>, Seq<char>)>::empty());
    while i < pairs.len()
        invariant
            0 <= i <= pairs.len(),
            all == pairs.deep_view(),
            total == pairs_size(all.take(i as int)),
            total <= QUERY_LIMIT,
        decreases pairs.len() - i,
    {
        let name: usize = pairs[i].0.as_str().unicode_len();
        let value: usize = pairs[i].1.as_str().unicode_len();
        proof {
            assert(all.take(i + 1).drop_last() == all.take(i as int));
            assert(all.take(i + 1).last() == all[i as int]);
            lemma_pairs_size_grows(all, i + 1);
        }
        if name > QUERY_LIMIT || value > QUERY_LIMIT || total + name + value + 1 > QUERY_LIMIT {
            return false;
        }
        total = total + name + value + 1;
        i += 1;
    }
    assert(all.take(i as int) == all);
    true
}

impl ParsedUrl {
    /// Parses an absolute URL.
    pub fn parse(input: &str) -> (r: Result<ParsedUrl, UrlError>)
        ensures
            match r {
                Ok(url) => url_parse(input@) == Some(url@),
                Err(e) => e == UrlError::Unparsable && url_parse(input@) is None,
            },
    {
        match parse_outside(input) {
            Some(url) => Ok(url),
            None => Err(UrlError::Unparsable),
        }
    }

    /// The URL with the `(name, value)` pairs added to its query, after the
    /// parameters that it has. A URL of more than [`QUERY_LIMIT`] characters,
    /// or parameters that take more room than that, are refused.
    pub fn with_params(&self, pairs: &Vec<(String, String)>) -> (r: Result<ParsedUrl, UrlError>)
        ensures
            viewed(r) == with_params_spec(self@.text, pairs.deep_view()),
    {
        if !fits(self.text.as_str(), pairs) {
            return Err(UrlError::TooLong);
        }
        match parse_with_params_outside(self.text.as_str(), pairs) {
            Some(url) => Ok(url),
            None => Err(UrlError::Unparsable),
        }
    }

    /// The URL written out in full.
    pub fn as_str(&self) -> (r: &str)
        ensures
            r@ == self@.text,
    {
        self.text.as_str()
    }

    /// The path of the URL.
    pub fn path(&self) -> (r: &str)
        ensures
            r@ == self@.path,
    {
        self.path.as_str()
    }

    /// The segments of the path, unless the path does not begin with a slash.
    pub fn path_segments(&self) -> (r: Option<Vec<String>>)
        ensures
            r.deep_view() == segments(self@.path),
    {
        let path = self.path.as_str();
        let n: usize = path.unicode_len();
        if n > 0 && path.get_char(0) == '/' {
            let rest = path.substring_char(1, n);
            assert(rest@ == path@.skip(1));
            Some(split_on(rest, '/'))
        } else {
            None
        }
    }

    /// The depth of the URL: the number of its path segments, so that the
    /// root has depth 1 and each further segment adds 1.
    pub fn depth(&self) -> (r: Result<usize, UrlError>)
        ensures
            match r {
                Ok(n) => depth_of(self@) == Ok::<nat, UrlError>(n as nat),
                Err(e) => depth_of(self@) == Err::<nat, UrlError>(e),
            },
    {
        match self.path_segments() {
            Some(pieces) => Ok(pieces.len()),
            None => Err(UrlError::NoPathSegments),
        }
    }
}

/// The canonical form of a target: the target itself where it ends with a
/// slash, else the target with a slash added.
pub open spec fn normalized(target: Seq<char>) -> Seq<char> {
    if ends_with(target, '/') {
        target
    } else {
        target.push('/')
    }
}

/// The base that a word is resolved against. For the empty word it is the
/// target as it stands. For any other word it is the target as a directory,
/// that is with a slash at its end.
pub open spec fn effective_base(target: Seq<char>, word: Seq<char>) -> Seq<char> {
    if word.len() == 0 {
        target
    } else {
        normalized(target)
    }
}

/// The reference that is resolved against the base. With an extension it is
/// the word, a dot and the extension. Without one it is the word with a slash
/// added where directories are asked for and the word has none at its end;
/// else the word without its leading slashes where it begins with two or more
/// of them; else the word.
pub open spec fn effective_word(
    word: Seq<char>,
    extension: Option<Seq<char>>,
    add_slash: bool,
) -> Seq<char> {
    match extension {
        Some(ext) => word.push('.') + ext,
        None => if add_slash && !ends_with(word, '/') {
            word.push('/')
        } else if starts_with_two(word, '/') {
            strip_leading(word, '/')
        } else {
            word
        },
    }
}

/// The URL that is requested for a word under a target, or why there is none.
pub open spec fn format_spec(
    target: Seq<char>,
    word: Seq<char>,
    extension: Option<Seq<char>>,
    add_slash: bool,
    queries: Seq<(Seq<char>, Seq<char>)>,
) -> Result<UrlView, UrlError> {
    if url_parse(word) is Some {
        Err(UrlError::WordIsUrl)
    } else {
        match url_join(effective_base(target, word), effective_word(word, extension, add_slash)) {
            None => Err(UrlError::Unparsable),
            Some(joined) => if queries.len() == 0 {
                Ok(joined)
            } else {
                with_params_spec(joined.text, queries)
            },
        }
    }
}

/// What is tried for a word: first the word without extension, then the word
/// with each configured extension, in configured order.
pub open spec fn attempts(target: Seq<char>, word: Seq<char>, config: ConfigurationView) -> Seq<
    Result<UrlView, UrlError>,
> {
    Seq::new(
        config.extensions.len() + 1,
        |i: int|
            if i == 0 {
                format_spec(target, word, None, config.add_slash, config.queries)
            } else {
                format_spec(
                    target,
                    word,
                    Some(config.extensions[i - 1]),
                    config.add_slash,
                    config.queries,
                )
            },
    )
}

/// The URLs among the outcomes, in their order.
pub open spec fn successes(outcomes: Seq<Result<UrlView, UrlError>>) -> Seq<UrlView>
    decreases outcomes.len(),
{
    if outcomes.len() == 0 {
        Seq::empty()
    } else {
        match outcomes.last() {
            Ok(url) => successes(outcomes.drop_last()).push(url),
            Err(_) => successes(outcomes.drop_last()),
        }
    }
}

/// The errors among the outcomes, in their order.
pub open spec fn failures(outcomes: Seq<Result<UrlView, UrlError>>) -> Seq<UrlError>
    decreases outcomes.len(),
{
    if outcomes.len() == 0 {
        Seq::empty()
    } else {
        match outcomes.last() {
            Ok(_) => failures(outcomes.drop_last()),
            Err(e) => failures(outcomes.drop_last()).push(e),
        }
    }
}

/// The depth of a target: the depth of the URL that its canonical form
/// parses to.
pub open spec fn depth_spec(target: Seq<char>) -> Result<nat, UrlError> {
    match url_parse(normalized(target)) {
        Some(url) => depth_of(url),
        None => Err(UrlError::Unparsable),
    }
}

/// The request URLs of one word, and what went wrong for the others.
#[derive(Debug)]
pub struct FormattedUrls {
    /// The URLs that could be made: the word alone first, then the word with
    /// each extension, in configured order.
    pub urls: Vec<ParsedUrl>,
    /// One error for each form of the word that gave no URL, in the same
    /// order. Each is to be reported once.
    pub errors: Vec<UrlError>,
}

impl FormattedUrls {
    /// Sorts outcomes into the URLs and the errors, each in the order in
    /// which they came.
    pub fn from_outcomes(outcomes: Vec<Result<ParsedUrl, UrlError>>) -> (r: Self)
        ensures
            r.urls.deep_view() == successes(
                outcomes@.map_values(|r: Result<ParsedUrl, UrlError>| viewed(r)),
            ),
            r.errors@ == failures(outcomes@.map_values(|r: Result<ParsedUrl, UrlError>| viewed(r))),
    {
        let ghost all = outcomes@.map_values(|r: Result<ParsedUrl, UrlError>| viewed(r));
        let mut urls: Vec<ParsedUrl> = Vec::new();
        let mut errors: Vec<UrlError> = Vec::new();
        proof {
            assert(all.take(0) == Seq::<Result<UrlView, UrlError>>::empty());
            assert(urls.deep_view() == Seq::<UrlView>::empty());
        }
        for outcome in it: outcomes
            invariant
                all == it.seq().map_values(|r: Result<ParsedUrl, UrlError>| viewed(r)),
                urls.deep_view() == successes(all.take(it.index() as int)),
                errors@ == failures(all.take(it.index() as int)),
        {
            let ghost urls_before = urls.deep_view();
            proof {
                assert(all.take(it.index() + 1).drop_last() == all.take(it.index() as int));
                assert(all.take(it.index() + 1).last() == viewed(outcome));
            }
            match outcome {
                Ok(url) => {
                    urls.push(url);
                    assert(urls.deep_view() == urls_before.push(url@));
                },
                Err(e) => {
                    errors.push(e);
                },
            }
        }
        assert(all.take(all.len() as int) == all);
        FormattedUrls { urls, errors }
    }
}

/// A target of the scan: the address of one directory, with the shared
/// state of the scan.
#[derive(Debug)]
pub struct FeroxUrl {
    target: String,
    handles: Arc<Handles>,
}

impl FeroxUrl {
    /// The target, as it was given.
    pub closed spec fn target_text(&self) -> Seq<char> {
        self.target@
    }

    /// The configuration that the target is scanned under.
    pub closed spec fn settings(&self) -> ConfigurationView {
        self.handles.config@
    }

    /// A target from its address.
    pub fn from_string(target: &str, handles: Arc<Handles>) -> (r: Self)
        ensures
            r.target_text() == target@,
            r.settings() == handles.config@,
    {
        FeroxUrl { handles, target: target.to_owned() }
    }

    /// A target from a parsed URL.
    pub fn from_url(target: &ParsedUrl, handles: Arc<Handles>) -> (r: Self)
        ensures
            r.target_text() == target@.text,
            r.settings() == handles.config@,
    {
        FeroxUrl { handles, target: target.as_str().to_owned() }
    }

    /// The target, as it was given.
    pub fn target(&self) -> (r: &str)
        ensures
            r@ == self.target_text(),
    {
        self.target.as_str()
    }

    /// The target with a slash at its end. Two targets that differ only by
    /// that slash have the same canonical form.
    pub fn normalize(&self) -> (r: String)
        ensures
            r@ == normalized(self.target_text()),
    {
        if ends_with_slash(self.target.as_str()) {
            self.target.clone()
        } else {
            proof {
                reveal_strlit("/");
            }
            let r = self.target.clone().concat("/");
            assert(r@ == self.target@.push('/'));
            r
        }
    }

    /// The base that `word` is resolved against.
    pub fn base_for(&self, word: &str) -> (r: String)
        ensures
            r@ == effective_base(self.target_text(), word@),
    {
        if word.is_empty() {
            self.target.clone()
        } else {
            self.normalize()
        }
    }

    /// The reference that is resolved against the base for `word` and
    /// `extension`.
    pub fn word_for(&self, word: &str, extension: Option<&str>) -> (r: String)
        ensures
            r@ == effective_word(word@, extension.deep_view(), self.settings().add_slash),
    {
        match extension {
            Some(ext) => {
                proof {
                    reveal_strlit(".");
                }
                let r = word.to_owned().concat(".").concat(ext);
                assert(r@ == word@.push('.') + ext@);
                r
            },
            None => {
                if self.handles.config.add_slash && !ends_with_slash(word) {
                    proof {
                        reveal_strlit("/");
                    }
                    let r = word.to_owned().concat("/");
                    assert(r@ == word@.push('/'));
                    r
                } else if starts_with_double_slash(word) {
                    strip_leading_slashes(word)
                } else {
                    word.to_owned()
                }
            },
        }
    }

    /// The URL that is requested for `word`, with `extension` if there is one.
    ///
    /// A word that is itself an absolute URL is refused. Any other word is
    /// resolved against the target, and the configured query parameters are
    /// added to the result.
    pub fn format(&self, word: &str, extension: Option<&str>) -> (r: Result<ParsedUrl, UrlError>)
        ensures
            viewed(r) == format_spec(
                self.target_text(),
                word@,
                extension.deep_view(),
                self.settings().add_slash,
                self.settings().queries,
            ),
    {
        if parse_outside(word).is_some() {
            return Err(UrlError::WordIsUrl);
        }
        let base = self.base_for(word);
        let reference = self.word_for(word, extension);
        match join_outside(base.as_str(), reference.as_str()) {
            None => Err(UrlError::Unparsable),
            Some(joined) => {
                if self.handles.config.queries.len() == 0 {
                    Ok(joined)
                } else {
                    joined.with_params(&self.handles.config.queries)
                }
            },
        }
    }

    /// The URLs that are requested for `word`: the word alone, then the word
    /// with each configured extension. A form of the word that gives no URL
    /// is left out of the URLs and gives an error instead.
    pub fn formatted_urls(&self, word: &str) -> (r: FormattedUrls)
        ensures
            r.urls.deep_view() == successes(attempts(self.target_text(), word@, self.settings())),
            r.errors@ == failures(attempts(self.target_text(), word@, self.settings())),
    {
        let ghost all = attempts(self.target_text(), word@, self.settings());
        let mut outcomes: Vec<Result<ParsedUrl, UrlError>> = Vec::new();
        outcomes.push(self.format(word, None));
        let extensions = &self.handles.config.extensions;
        let mut i: usize = 0;
        while i < extensions.len()
            invariant
                0 <= i <= extensions.len(),
                extensions == &self.handles.config.extensions,
                all == attempts(self.target_text(), word@, self.settings()),
                outcomes.len() == i + 1,
                forall|j: int| 0 <= j <= i ==> viewed(#[trigger] outcomes[j]) == all[j],
            decreases extensions.len() - i,
        {
            let outcome = self.format(word, Some(extensions[i].as_str()));
            proof {
                assert(self.settings().extensions[i as int] == extensions[i as int]@);
                assert(viewed(outcome) == all[i + 1]);
            }
            outcomes.push(outcome);
            i += 1;
        }
        assert(outcomes@.map_values(|r: Result<ParsedUrl, UrlError>| viewed(r)) == all);
        FormattedUrls::from_outcomes(outcomes)
    }

    /// The number of characters of the last path segment of the target.
    pub fn path_length(&self) -> (r: Result<u64, UrlError>)
        ensures
            match url_parse(self.target_text()) {
                Some(url) => r matches Ok(n) && n == last_segment_len(url.path),
                None => r == Err::<u64, UrlError>(UrlError::Unparsable),
            },
    {
        match parse_outside(self.target.as_str()) {
            Some(url) => Ok(FeroxUrl::path_length_of_url(&url)),
            None => Err(UrlError::Unparsable),
        }
    }

    /// The number of characters of the last path segment of `url`, where a
    /// slash at the end of the path belongs to the segment before it. It is 0
    /// for the root.
    pub fn path_length_of_url(url: &ParsedUrl) -> (r: u64)
        ensures
            r == last_segment_len(url@.path),
    {
        let path = url.path();
        let n: usize = path.unicode_len();
        if n > 0 && path.get_char(0) == '/' {
            let rest = path.substring_char(1, n);
            assert(rest@ == path@.skip(1));
            let pieces = split_on(rest, '/');
            proof {
                crate::text::lemma_split_nonempty(rest@, '/');
            }
            let ghost all = pieces.deep_view();
            let last_index: usize = pieces.len() - 1;
            assert(all.last() == pieces[last_index as int]@);
            if pieces[last_index].as_str().unicode_len() == 0 {
                if last_index == 0 {
                    0
                } else {
                    assert(all.drop_last().last() == pieces[last_index - 1]@);
                    pieces[last_index - 1].as_str().unicode_len() as u64
                }
            } else {
                pieces[last_index].as_str().unicode_len() as u64
            }
        } else {
            0
        }
    }

    /// The depth of the target: 1 for the root, and 1 more for each further
    /// path segment. A slash at the end of the target makes no difference.
    pub fn depth(&self) -> (r: Result<usize, UrlError>)
        ensures
            match r {
                Ok(n) => depth_spec(self.target_text()) == Ok::<nat, UrlError>(n as nat),
                Err(e) => depth_spec(self.target_text()) == Err::<nat, UrlError>(e),
            },
    {
        let target = self.normalize();
        match parse_outside(target.as_str()) {
            Some(url) => url.depth(),
            None => Err(UrlError::Unparsable),
        }
    }
}

/// Making a target canonical twice is making it canonical once, and the
/// canonical form ends with a slash.
pub proof fn lemma_normalized_twice(target: Seq<char>)
    ensures
        ends_with(normalized(target), '/'),
        normalized(normalized(target)) == normalized(target),
{
}

/// Two targets that differ only by a slash at the end have the same
/// canonical form.
pub proof fn lemma_normalized_ignores_final_slash(target: Seq<char>)
    requires
        !ends_with(target, '/'),
    ensures
        normalized(target.push('/')) == normalized(target),
{
}

/// The depth of a target is the depth of its canonical form.
pub proof fn lemma_depth_of_normalized(target: Seq<char>)
    ensures
        depth_spec(normalized(target)) == depth_spec(target),
{
    lemma_normalized_twice(target);
}

/// The depth of a URL is at least 1.
pub proof fn lemma_depth_positive(url: UrlView)
    ensures
        depth_of(url) matches Ok(n) ==> n >= 1,
{
    if url.path.len() > 0 && url.path[0] == '/' {
        crate::text::lemma_split_nonempty(url.path.skip(1), '/');
    }
}

/// A word that is itself an absolute URL gives no URL, with or without an
/// extension, whatever the configuration.
pub proof fn lemma_url_word_refused(
    target: Seq<char>,
    word: Seq<char>,
    extension: Option<Seq<char>>,
    add_slash: bool,
    queries: Seq<(Seq<char>, Seq<char>)>,
)
    requires
        url_parse(word) is Some,
    ensures
        format_spec(target, word, extension, add_slash, queries) == Err::<UrlView, UrlError>(
            UrlError::WordIsUrl,
        ),
{
}

/// Without an extension, without query parameters and without the request
/// for directories, a word that is not empty and not itself a URL gives what
/// resolving gives: the word, less its leading slashes where it begins with
/// two or more, is resolved against the canonical form of the target. For a
/// word that does not begin with two slashes that is the word itself.
pub proof fn lemma_plain_word_is_joined(target: Seq<char>, word: Seq<char>)
    requires
        word.len() > 0,
        url_parse(word) is None,
    ensures
        format_spec(target, word, None, false, Seq::empty()) == match url_join(
            normalized(target),
            effective_word(word, None, false),
        ) {
            Some(url) => Ok::<UrlView, UrlError>(url),
            None => Err::<UrlView, UrlError>(UrlError::Unparsable),
        },
        !starts_with_two(word, '/') ==> effective_word(word, None, false) == word,
{
}

/// Without an extension and without the request for directories, the
/// reference that is handed to the resolver never begins with two slashes,
/// whatever the word: a word cannot name another host in that way.
pub proof fn lemma_reference_names_no_host(word: Seq<char>)
    ensures
        !starts_with_two(effective_word(word, None, false), '/'),
{
    crate::text::lemma_strip_leading_leaves_none(word, '/');
}

/// The positions of the URLs among the outcomes, in their order.
pub open spec fn success_positions(outcomes: Seq<Result<UrlView, UrlError>>) -> Seq<int>
    decreases outcomes.len(),
{
    if outcomes.len() == 0 {
        Seq::empty()
    } else {
        match outcomes.last() {
            Ok(_) => success_positions(outcomes.drop_last()).push(outcomes.len() - 1),
            Err(_) => success_positions(outcomes.drop_last()),
        }
    }
}

/// Each outcome is a URL or an error: the URLs and the errors together are
/// as many as the outcomes.
pub proof fn lemma_outcomes_counted(outcomes: Seq<Result<UrlView, UrlError>>)
    ensures
        successes(outcomes).len() + failures(outcomes).len() == outcomes.len(),
    decreases outcomes.len(),
{
    if outcomes.len() > 0 {
        lemma_outcomes_counted(outcomes.drop_last());
    }
}

/// The URLs are the outcomes that are URLs, in the order of the outcomes:
/// the `k`-th URL stands at the `k`-th of the positions, the positions rise,
/// and every outcome that is a URL stands at one of them.
pub proof fn lemma_successes_in_order(outcomes: Seq<Result<UrlView, UrlError>>)
    ensures
        success_positions(outcomes).len() == successes(outcomes).len(),
        forall|k: int|
            0 <= k < successes(outcomes).len() ==> {
                &&& 0 <= #[trigger] success_positions(outcomes)[k] < outcomes.len()
                &&& outcomes[success_positions(outcomes)[k]] == Ok::<UrlView, UrlError>(
                    successes(outcomes)[k],
                )
            },
        forall|j: int, k: int|
            0 <= j < k < successes(outcomes).len() ==> success_positions(outcomes)[j]
                < success_positions(outcomes)[k],
        forall|p: int|
            0 <= p < outcomes.len() && #[trigger] outcomes[p] is Ok ==> exists|k: int|
                0 <= k < successes(outcomes).len() && #[trigger] success_positions(outcomes)[k]
                    == p,
    decreases outcomes.len(),
{
    if outcomes.len() > 0 {
        let front = outcomes.drop_last();
        lemma_successes_in_order(front);
        let positions = success_positions(outcomes);
        let urls = successes(outcomes);
        assert forall|k: int| 0 <= k < urls.len() implies {
            &&& 0 <= #[trigger] positions[k] < outcomes.len()
            &&& outcomes[positions[k]] == Ok::<UrlView, UrlError>(urls[k])
        } by {
            if k < successes(front).len() {
                assert(positions[k] == success_positions(front)[k]);
                assert(outcomes[positions[k]] == front[positions[k]]);
            }
        }
        assert forall|j: int, k: int| 0 <= j < k < urls.len() implies positions[j]
            < positions[k] by {
            assert(positions[j] == success_positions(front)[j]);
            if k < successes(front).len() {
                assert(positions[k] == success_positions(front)[k]);
            }
        }
        assert forall|p: int| 0 <= p < outcomes.len() && #[trigger] outcomes[p] is Ok implies exists|
            k: int,
        |
            0 <= k < urls.len() && #[trigger] positions[k] == p by {
            if p < front.len() {
                assert(front[p] == outcomes[p]);
                assert(front[p] is Ok);
                let k = choose|k: int|
                    0 <= k < successes(front).len() && #[trigger] success_positions(front)[k] == p;
                assert(positions[k] == p);
            } else {
                assert(positions[positions.len() - 1] == p);
            }
        }
    }
}

/// Where every outcome is a URL, the URLs are the outcomes one for one.
pub proof fn lemma_successes_complete(outcomes: Seq<Result<UrlView, UrlError>>)
    requires
        forall|i: int| 0 <= i < outcomes.len() ==> outcomes[i] is Ok,
    ensures
        successes(outcomes).len() == outcomes.len(),
        forall|i: int|
            0 <= i < outcomes.len() ==> outcomes[i] == Ok::<UrlView, UrlError>(
                #[trigger] successes(outcomes)[i],
            ),
    decreases outcomes.len(),
{
    if outcomes.len() > 0 {
        let front = outcomes.drop_last();
        assert forall|i: int| 0 <= i < front.len() implies front[i] is Ok by {
            assert(front[i] == outcomes[i]);
        }
        lemma_successes_complete(front);
        assert forall|i: int| 0 <= i < outcomes.len() implies outcomes[i] == Ok::<
            UrlView,
            UrlError,
        >(#[trigger] successes(outcomes)[i]) by {
            if i < front.len() {
                assert(front[i] == outcomes[i]);
                assert(successes(outcomes)[i] == successes(front)[i]);
            }
        }
    }
}

/// With `k` extensions configured, a word is tried in `k + 1` forms: alone
/// first, then with each extension in configured order. It gives at most
/// `k + 1` URLs, fewer only where a form gives an error, and the URLs stand
/// in the order of the forms.
pub proof fn lemma_formatted_urls(target: Seq<char>, word: Seq<char>, config: ConfigurationView)
    ensures
        ({
            let tried = attempts(target, word, config);
            let urls = successes(tried);
            let positions = success_positions(tried);
            &&& tried.len() == config.extensions.len() + 1
            &&& tried[0] == format_spec(target, word, None, config.add_slash, config.queries)
            &&& forall|i: int|
                0 <= i < config.extensions.len() ==> #[trigger] tried[i + 1] == format_spec(
                    target,
                    word,
                    Some(config.extensions[i]),
                    config.add_slash,
                    config.queries,
                )
            &&& urls.len() + failures(tried).len() == config.extensions.len() + 1
            &&& urls.len() <= config.extensions.len() + 1
            &&& positions.len() == urls.len()
            &&& forall|k: int|
                0 <= k < urls.len() ==> 0 <= #[trigger] positions[k] < tried.len()
                    && tried[positions[k]] == Ok::<UrlView, UrlError>(urls[k])
            &&& forall|j: int, k: int| 0 <= j < k < urls.len() ==> positions[j] < positions[k]
        }),
{
    let tried = attempts(target, word, config);
    lemma_outcomes_counted(tried);
    lemma_successes_in_order(tried);
}

} // verus!
