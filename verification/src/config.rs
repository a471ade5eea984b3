//! The scan configuration and the layers it is built from: built-in
//! defaults, then the values of a configuration file, then the command line.
use crate::headers::{distinct_names, map_of, Headers};
use crate::text::{
    decimal, digit_value, find_first, is_digit, parse_decimal, position_of, same_text, trim,
    trimmed,
};
use crate::{DEFAULT_WORDLIST, VERSION};
use reqwest::StatusCode;
use vstd::prelude::*;

verus! {

/// The final configuration of a scan. It is built once and then only read.
#[derive(Debug, Clone)]
pub struct Configuration {
    /// Path of the wordlist.
    pub wordlist: String,
    /// Address of the proxy that requests go through; empty when there is none.
    pub proxy: String,
    /// The address to scan.
    pub target_url: String,
    /// The status codes of responses that are reported.
    pub statuscodes: Vec<u16>,
    /// How many requests are in flight at once.
    pub threads: usize,
    /// Seconds after which a request is given up.
    pub timeout: u64,
    /// How much is logged.
    pub verbosity: u8,
    /// Whether only found addresses are printed.
    pub quiet: bool,
    /// Path of the file that results are written to; empty when there is none.
    pub output: String,
    /// The user agent that requests carry.
    pub useragent: String,
    /// Whether the client follows redirects.
    pub follow_redirects: bool,
    /// Whether invalid certificates are accepted.
    pub insecure: bool,
    /// File extensions that are tried for each word, in this order.
    pub extensions: Vec<String>,
    /// Headers that every request carries.
    pub headers: Headers,
    /// Whether found directories are left unscanned.
    pub norecursion: bool,
    /// Whether each word is requested as a directory.
    pub add_slash: bool,
    /// Query parameters that every request carries, in this order.
    pub queries: Vec<(String, String)>,
}

/// What a [`Configuration`] holds, as mathematical values.
#[verifier::ext_equal]
pub ghost struct ConfigurationView {
    pub wordlist: Seq<char>,
    pub proxy: Seq<char>,
    pub target_url: Seq<char>,
    pub statuscodes: Seq<u16>,
    pub threads: usize,
    pub timeout: u64,
    pub verbosity: u8,
    pub quiet: bool,
    pub output: Seq<char>,
    pub useragent: Seq<char>,
    pub follow_redirects: bool,
    pub insecure: bool,
    pub extensions: Seq<Seq<char>>,
    pub headers: Map<Seq<char>, Seq<char>>,
    pub norecursion: bool,
    pub add_slash: bool,
    pub queries: Seq<(Seq<char>, Seq<char>)>,
}

impl View for Configuration {
    type V = ConfigurationView;

    open spec fn view(&self) -> ConfigurationView {
        ConfigurationView {
            wordlist: self.wordlist@,
            proxy: self.proxy@,
            target_url: self.target_url@,
            statuscodes: self.statuscodes@,
            threads: self.threads,
            timeout: self.timeout,
            verbosity: self.verbosity,
            quiet: self.quiet,
            output: self.output@,
            useragent: self.useragent@,
            follow_redirects: self.follow_redirects,
            insecure: self.insecure,
            extensions: self.extensions.deep_view(),
            headers: self.headers@,
            norecursion: self.norecursion,
            add_slash: self.add_slash,
            queries: self.queries.deep_view(),
        }
    }
}

/// The status codes that are reported unless others are asked for.
pub open spec fn default_statuscodes() -> Seq<u16> {
    seq![200u16, 204u16, 301u16, 302u16, 307u16, 308u16, 401u16, 403u16, 405u16]
}

/// The user agent that is sent unless another is asked for.
pub open spec fn default_useragent() -> Seq<char> {
    "feroxbuster/"@ + VERSION@
}

/// The configuration that holds where neither file nor command line says
/// anything.
pub open spec fn default_view() -> ConfigurationView {
    ConfigurationView {
        wordlist: DEFAULT_WORDLIST@,
        proxy: Seq::empty(),
        target_url: Seq::empty(),
        statuscodes: default_statuscodes(),
        threads: 50,
        timeout: 7,
        verbosity: 0,
        quiet: false,
        output: Seq::empty(),
        useragent: default_useragent(),
        follow_redirects: false,
        insecure: false,
        extensions: Seq::empty(),
        headers: Map::empty(),
        norecursion: false,
        add_slash: false,
        queries: Seq::empty(),
    }
}

/// Default number of seconds after which a request is given up.
pub fn timeout() -> (r: u64)
    ensures
        r == default_view().timeout,
{
    7
}

/// Default number of requests in flight at once.
pub fn threads() -> (r: usize)
    ensures
        r == default_view().threads,
{
    50
}

/// Default status codes of responses that are reported.
pub fn statuscodes() -> (r: Vec<u16>)
    ensures
        r@ == default_statuscodes(),
{
    let mut codes: Vec<u16> = Vec::new();
    codes.push(200);
    codes.push(204);
    codes.push(301);
    codes.push(302);
    codes.push(307);
    codes.push(308);
    codes.push(401);
    codes.push(403);
    codes.push(405);
    assert(codes@ == default_statuscodes());
    codes
}

/// Default path of the wordlist.
pub fn wordlist() -> (r: String)
    ensures
        r@ == default_view().wordlist,
{
    DEFAULT_WORDLIST.to_owned()
}

/// Default user agent: the program's name, a slash and its version.
pub fn useragent() -> (r: String)
    ensures
        r@ == default_useragent(),
{
    "feroxbuster/".to_owned().concat(VERSION)
}

impl Default for Configuration {
    fn default() -> (r: Self)
        ensures
            r@ == default_view(),
    {
        let extensions: Vec<String> = Vec::new();
        let queries: Vec<(String, String)> = Vec::new();
        assert(extensions.deep_view() == Seq::<Seq<char>>::empty());
        assert(queries.deep_view() == Seq::<(Seq<char>, Seq<char>)>::empty());
        Configuration {
            wordlist: wordlist(),
            proxy: String::new(),
            target_url: String::new(),
            statuscodes: statuscodes(),
            threads: threads(),
            timeout: timeout(),
            verbosity: 0,
            quiet: false,
            output: String::new(),
            useragent: useragent(),
            follow_redirects: false,
            insecure: false,
            extensions,
            headers: Headers::new(),
            norecursion: false,
            add_slash: false,
            queries,
        }
    }
}

/// What a configuration file sets. A field that the file does not mention
/// is `None` and leaves the value that was there.
#[derive(Debug, Clone, Default)]
pub struct FileSettings {
    pub wordlist: Option<String>,
    pub statuscodes: Option<Vec<u16>>,
    pub threads: Option<usize>,
    pub timeout: Option<u64>,
    pub proxy: Option<String>,
    pub verbosity: Option<u8>,
    pub quiet: Option<bool>,
    pub output: Option<String>,
    pub useragent: Option<String>,
    pub follow_redirects: Option<bool>,
    pub insecure: Option<bool>,
    pub extensions: Option<Vec<String>>,
    /// Headers as `(name, value)` pairs. Of two pairs with one name the later
    /// one counts.
    pub headers: Option<Vec<(String, String)>>,
    pub norecursion: Option<bool>,
    pub add_slash: Option<bool>,
    pub queries: Option<Vec<(String, String)>>,
}

/// What the command line gives, as it was typed. An option that was not
/// given is `None`, a switch that was not given is `false`.
#[derive(Debug, Clone, Default)]
pub struct CliArgs {
    /// The address to scan. It is required.
    pub url: String,
    pub wordlist: Option<String>,
    /// The number of threads, as text.
    pub threads: Option<String>,
    /// The timeout in seconds, as text.
    pub timeout: Option<String>,
    pub output: Option<String>,
    /// The status codes to report, each as text.
    pub statuscodes: Option<Vec<String>>,
    pub extensions: Option<Vec<String>>,
    pub proxy: Option<String>,
    pub useragent: Option<String>,
    /// Headers, each in the form `name: value`.
    pub headers: Option<Vec<String>>,
    pub quiet: bool,
    pub follow_redirects: bool,
    pub norecursion: bool,
    pub insecure: bool,
    /// How many times the verbosity switch was given.
    pub verbosity: u64,
}

/// Why the command line gives no configuration.
#[derive(Debug, Clone, Copy, PartialEq, Eq)]
pub enum ConfigError {
    /// The number of threads is no number, or too large a one.
    InvalidThreads,
    /// One of the status codes is no status code.
    InvalidStatusCode,
    /// The timeout is no number, or too large a one.
    InvalidTimeout,
}

impl ConfigError {
    /// The error in words.
    pub fn message(&self) -> (r: String)
        ensures
            r@ == match *self {
                ConfigError::InvalidThreads => "invalid number of threads"@,
                ConfigError::InvalidStatusCode => "invalid status code"@,
                ConfigError::InvalidTimeout => "invalid timeout"@,
            },
    {
        match self {
            ConfigError::InvalidThreads => "invalid number of threads".to_owned(),
            ConfigError::InvalidStatusCode => "invalid status code".to_owned(),
            ConfigError::InvalidTimeout => "invalid timeout".to_owned(),
        }
    }
}

/// The status code that `text` denotes: three digits, the first of them not
/// `0`. Any other text denotes none.
pub open spec fn status_code(text: Seq<char>) -> Option<u16> {
    if text.len() == 3 && is_digit(text[0]) && is_digit(text[1]) && is_digit(text[2]) && text[0]
        != '0' {
        Some((100 * digit_value(text[0]) + 10 * digit_value(text[1]) + digit_value(text[2])) as u16)
    } else {
        None
    }
}

/// Calls `reqwest::StatusCode::from_bytes` on the bytes of `text`, and
/// `as_u16` on the status code that it returns. `from_bytes` accepts exactly
/// three ASCII digits of which the first is not `0`, and the code is the
/// number that they denote; this is what the contract states.
#[verifier::external_body]
fn status_code_outside(text: &str) -> (r: Option<u16>)
    ensures
        r == status_code(text@),
{
    match StatusCode::from_bytes(text.as_bytes()) {
        Ok(code) => Some(code.as_u16()),
        Err(_) => None,
    }
}

/// The status codes that the texts denote, if each of them denotes one.
pub open spec fn status_codes(texts: Seq<Seq<char>>) -> Option<Seq<u16>> {
    if forall|i: int| 0 <= i < texts.len() ==> status_code(#[trigger] texts[i]) is Some {
        Some(Seq::new(texts.len(), |i: int| status_code(texts[i]).unwrap()))
    } else {
        None
    }
}

/// The header that a text of the form `name: value` denotes. The name is
/// what stands before the first colon and the value what stands after it,
/// each without the whitespace around it. A text without a colon is a name
/// with an empty value.
pub open spec fn header_of(text: Seq<char>) -> (Seq<char>, Seq<char>) {
    let colon = position_of(text, ':') as int;
    if colon < text.len() {
        (trimmed(text.take(colon)), trimmed(text.skip(colon + 1)))
    } else {
        (trimmed(text), Seq::empty())
    }
}

/// The headers that result when each text is read as a header and set, one
/// after the other, on top of `base`.
pub open spec fn with_headers(base: Map<Seq<char>, Seq<char>>, texts: Seq<Seq<char>>) -> Map<
    Seq<char>,
    Seq<char>,
>
    decreases texts.len(),
{
    if texts.len() == 0 {
        base
    } else {
        let (name, value) = header_of(texts.last());
        with_headers(base, texts.drop_last()).insert(name, value)
    }
}

/// The text that was given, or else the one that was there.
pub open spec fn text_or(given: Option<String>, otherwise: Seq<char>) -> Seq<char> {
    match given {
        Some(text) => text@,
        None => otherwise,
    }
}

/// The value that was given, or else the one that was there.
pub open spec fn value_or<T>(given: Option<T>, otherwise: T) -> T {
    match given {
        Some(value) => value,
        None => otherwise,
    }
}

/// The texts that were given, or else those that were there.
pub open spec fn texts_or(given: Option<Vec<String>>, otherwise: Seq<Seq<char>>) -> Seq<Seq<char>> {
    match given {
        Some(texts) => texts.deep_view(),
        None => otherwise,
    }
}

/// The number that was given as text, or else the one that was there. It is
/// `None` where the text denotes no number up to `max`.
pub open spec fn number_or(given: Option<String>, max: nat, otherwise: nat) -> Option<nat> {
    match given {
        Some(text) => decimal(text@, max),
        None => Some(otherwise),
    }
}

/// The configuration `base` with what the file sets laid over it.
pub open spec fn with_file(base: ConfigurationView, file: FileSettings) -> ConfigurationView {
    ConfigurationView {
        wordlist: text_or(file.wordlist, base.wordlist),
        proxy: text_or(file.proxy, base.proxy),
        target_url: base.target_url,
        statuscodes: match file.statuscodes {
            Some(codes) => codes@,
            None => base.statuscodes,
        },
        threads: value_or(file.threads, base.threads),
        timeout: value_or(file.timeout, base.timeout),
        verbosity: value_or(file.verbosity, base.verbosity),
        quiet: value_or(file.quiet, base.quiet),
        output: text_or(file.output, base.output),
        useragent: text_or(file.useragent, base.useragent),
        follow_redirects: value_or(file.follow_redirects, base.follow_redirects),
        insecure: value_or(file.insecure, base.insecure),
        extensions: texts_or(file.extensions, base.extensions),
        headers: match file.headers {
            Some(pairs) => map_of(pairs.deep_view()),
            None => base.headers,
        },
        norecursion: value_or(file.norecursion, base.norecursion),
        add_slash: value_or(file.add_slash, base.add_slash),
        queries: match file.queries {
            Some(pairs) => pairs.deep_view(),
            None => base.queries,
        },
    }
}

/// The number of threads that the command line leaves: the one it gives, or
/// else the one of `base`. `None` where it gives one that is no number.
pub open spec fn threads_with_args(base: ConfigurationView, args: CliArgs) -> Option<nat> {
    number_or(args.threads, usize::MAX as nat, base.threads as nat)
}

/// The timeout that the command line leaves: the one it gives, or else the
/// one of `base`. `None` where it gives one that is no number.
pub open spec fn timeout_with_args(base: ConfigurationView, args: CliArgs) -> Option<nat> {
    number_or(args.timeout, u64::MAX as nat, base.timeout as nat)
}

/// The status codes that the command line leaves: those it gives, or else
/// those of `base`. `None` where it gives one that is no status code.
pub open spec fn codes_with_args(base: ConfigurationView, args: CliArgs) -> Option<Seq<u16>> {
    match args.statuscodes {
        Some(texts) => status_codes(texts.deep_view()),
        None => Some(base.statuscodes),
    }
}

/// The configuration `base` with what the command line gives laid over it.
///
/// An option that was given replaces the value of `base`; one that was not
/// given leaves it. A switch that was given sets its value; one that was not
/// given leaves it as it is, set or not. The target is always that of the
/// command line. Headers are set on top of those of `base`.
///
/// A number of threads, a status code or a timeout that cannot be read is an
/// error, and the first of them in this order is the one reported.
pub open spec fn with_args(base: ConfigurationView, args: CliArgs) -> Result<
    ConfigurationView,
    ConfigError,
> {
    if threads_with_args(base, args) is None {
        Err(ConfigError::InvalidThreads)
    } else if codes_with_args(base, args) is None {
        Err(ConfigError::InvalidStatusCode)
    } else if timeout_with_args(base, args) is None {
        Err(ConfigError::InvalidTimeout)
    } else {
        Ok(
            ConfigurationView {
                wordlist: text_or(args.wordlist, base.wordlist),
                proxy: text_or(args.proxy, base.proxy),
                target_url: args.url@,
                statuscodes: codes_with_args(base, args).unwrap(),
                threads: threads_with_args(base, args).unwrap() as usize,
                timeout: timeout_with_args(base, args).unwrap() as u64,
                verbosity: if args.verbosity > 0 {
                    (args.verbosity % 256) as u8
                } else {
                    base.verbosity
                },
                quiet: base.quiet || args.quiet,
                output: text_or(args.output, base.output),
                useragent: text_or(args.useragent, base.useragent),
                follow_redirects: base.follow_redirects || args.follow_redirects,
                insecure: base.insecure || args.insecure,
                extensions: texts_or(args.extensions, base.extensions),
                headers: match args.headers {
                    Some(texts) => with_headers(base.headers, texts.deep_view()),
                    None => base.headers,
                },
                norecursion: base.norecursion || args.norecursion,
                add_slash: base.add_slash,
                queries: base.queries,
            },
        )
    }
}

/// The configuration of a scan: the defaults, with the file laid over them
/// if there is one, with the command line laid over that.
pub open spec fn resolved(file: Option<FileSettings>, args: CliArgs) -> Result<
    ConfigurationView,
    ConfigError,
> {
    match file {
        Some(settings) => with_args(with_file(default_view(), settings), args),
        None => with_args(default_view(), args),
    }
}

/// A result with its configuration as mathematical values.
pub open spec fn viewed(r: Result<Configuration, ConfigError>) -> Result<
    ConfigurationView,
    ConfigError,
> {
    match r {
        Ok(config) => Ok(config@),
        Err(e) => Err(e),
    }
}

/// Reads `text` as a status code.
pub fn parse_status_code(text: &str) -> (r: Option<u16>)
    ensures
        r == status_code(text@),
{
    status_code_outside(text)
}

/// Reads each text as a status code. There is a result only if each of them
/// is one.
pub fn parse_status_codes(texts: &Vec<String>) -> (r: Option<Vec<u16>>)
    ensures
        r.deep_view() == status_codes(texts.deep_view()),
{
    let mut codes: Vec<u16> = Vec::new();
    let mut i: usize = 0;
    while i < texts.len()
        invariant
            0 <= i <= texts.len(),
            codes.len() == i,
            forall|j: int|
                0 <= j < i ==> status_code(#[trigger] texts.deep_view()[j]) == Some(codes[j]),
        decreases texts.len() - i,
    {
        match status_code_outside(texts[i].as_str()) {
            Some(code) => {
                codes.push(code);
            },
            None => {
                assert(status_code(texts.deep_view()[i as int]) is None);
                return None;
            },
        }
        i += 1;
    }
    proof {
        let all = status_codes(texts.deep_view());
        assert(all is Some);
        assert(codes.deep_view() =~= all.unwrap());
    }
    Some(codes)
}

/// Reads a text of the form `name: value` as a header.
pub fn parse_header(text: &str) -> (r: (String, String))
    ensures
        r.deep_view() == header_of(text@),
{
    let n: usize = text.unicode_len();
    let colon: usize = find_first(text, ':');
    if colon < n {
        let name = trim(text.substring_char(0, colon));
        let value = trim(text.substring_char(colon + 1, n));
        (name, value)
    } else {
        (trim(text), String::new())
    }
}

impl Configuration {
    /// The configuration of a scan: the built-in defaults, overridden by what
    /// the configuration file sets, if there is one, overridden by what the
    /// command line gives.
    pub fn new(file: Option<FileSettings>, args: CliArgs) -> (r: Result<Configuration, ConfigError>)
        ensures
            viewed(r) == resolved(file, args),
    {
        let defaults = Configuration::default();
        match file {
            Some(settings) => defaults.merge_file(settings).merge_args(args),
            None => defaults.merge_args(args),
        }
    }

    /// Lays what a configuration file sets over this configuration.
    pub fn merge_file(self, file: FileSettings) -> (r: Configuration)
        ensures
            r@ == with_file(self@, file),
    {
        let config = Configuration {
            wordlist: pick_text(file.wordlist, self.wordlist),
            proxy: pick_text(file.proxy, self.proxy),
            target_url: self.target_url,
            statuscodes: pick(file.statuscodes, self.statuscodes),
            threads: pick(file.threads, self.threads),
            timeout: pick(file.timeout, self.timeout),
            verbosity: pick(file.verbosity, self.verbosity),
            quiet: pick(file.quiet, self.quiet),
            output: pick_text(file.output, self.output),
            useragent: pick_text(file.useragent, self.useragent),
            follow_redirects: pick(file.follow_redirects, self.follow_redirects),
            insecure: pick(file.insecure, self.insecure),
            extensions: pick_texts(file.extensions, self.extensions),
            headers: match file.headers {
                Some(pairs) => Headers::from_pairs(&pairs),
                None => self.headers,
            },
            norecursion: pick(file.norecursion, self.norecursion),
            add_slash: pick(file.add_slash, self.add_slash),
            queries: pick(file.queries, self.queries),
        };
        assert(config@ =~= with_file(self@, file));
        config
    }

    /// Lays what the command line gives over this configuration.
    pub fn merge_args(self, args: CliArgs) -> (r: Result<Configuration, ConfigError>)
        ensures
            viewed(r) == with_args(self@, args),
    {
        let threads: usize = match args.threads {
            Some(text) => match parse_decimal(text.as_str(), usize::MAX as u64) {
                Some(threads) => threads as usize,
                None => {
                    return Err(ConfigError::InvalidThreads);
                },
            },
            None => self.threads,
        };
        let statuscodes: Vec<u16> = match args.statuscodes {
            Some(texts) => match parse_status_codes(&texts) {
                Some(codes) => codes,
                None => {
                    return Err(ConfigError::InvalidStatusCode);
                },
            },
            None => self.statuscodes,
        };
        let timeout: u64 = match args.timeout {
            Some(text) => match parse_decimal(text.as_str(), u64::MAX) {
                Some(timeout) => timeout,
                None => {
                    return Err(ConfigError::InvalidTimeout);
                },
            },
            None => self.timeout,
        };
        let config = Configuration {
            wordlist: pick_text(args.wordlist, self.wordlist),
            proxy: pick_text(args.proxy, self.proxy),
            target_url: args.url,
            statuscodes,
            threads,
            timeout,
            verbosity: if args.verbosity > 0 {
                (args.verbosity % 256) as u8
            } else {
                self.verbosity
            },
            quiet: self.quiet || args.quiet,
            output: pick_text(args.output, self.output),
            useragent: pick_text(args.useragent, self.useragent),
            follow_redirects: self.follow_redirects || args.follow_redirects,
            insecure: self.insecure || args.insecure,
            extensions: pick_texts(args.extensions, self.extensions),
            headers: match args.headers {
                Some(texts) => set_headers(self.headers, &texts),
                None => self.headers,
            },
            norecursion: self.norecursion || args.norecursion,
            add_slash: self.add_slash,
            queries: self.queries,
        };
        proof {
            assert(threads_with_args(self@, args) == Some(threads as nat));
            assert(statuscodes.deep_view() == statuscodes@);
            assert(codes_with_args(self@, args) == Some(statuscodes@));
            assert(timeout_with_args(self@, args) == Some(timeout as nat));
            assert(with_args(self@, args) is Ok);
            assert(config@ =~= with_args(self@, args).unwrap());
        }
        Ok(config)
    }
}

/// The value that was given, or else the one that was there.
fn pick<T>(given: Option<T>, otherwise: T) -> (r: T)
    ensures
        r == value_or(given, otherwise),
{
    match given {
        Some(value) => value,
        None => otherwise,
    }
}

/// The text that was given, or else the one that was there.
fn pick_text(given: Option<String>, otherwise: String) -> (r: String)
    ensures
        r@ == text_or(given, otherwise@),
{
    match given {
        Some(text) => text,
        None => otherwise,
    }
}

/// The texts that were given, or else those that were there.
fn pick_texts(given: Option<Vec<String>>, otherwise: Vec<String>) -> (r: Vec<String>)
    ensures
        r.deep_view() == texts_or(given, otherwise.deep_view()),
{
    match given {
        Some(texts) => texts,
        None => otherwise,
    }
}

/// Reads each text as a header and sets it, one after the other.
fn set_headers(headers: Headers, texts: &Vec<String>) -> (r: Headers)
    ensures
        r@ == with_headers(headers@, texts.deep_view()),
{
    let mut headers = headers;
    let ghost base = headers@;
    let mut i: usize = 0;
    assert(texts.deep_view().take(0) == Seq::<Seq<char>>::empty());
    while i < texts.len()
        invariant
            0 <= i <= texts.len(),
            headers@ == with_headers(base, texts.deep_view().take(i as int)),
        decreases texts.len() - i,
    {
        let (name, value) = parse_header(texts[i].as_str());
        proof {
            let upto = texts.deep_view().take(i + 1);
            assert(upto.drop_last() == texts.deep_view().take(i as int));
            assert(upto.last() == texts[i as int]@);
        }
        headers.insert(name, value);
        i += 1;
    }
    assert(texts.deep_view().take(i as int) == texts.deep_view());
    headers
}

/// What an HTTP client is built from.
#[derive(Debug, Clone)]
pub struct ClientSettings {
    /// Seconds after which a request is given up.
    pub timeout: u64,
    /// The user agent that requests carry.
    pub useragent: String,
    /// Whether the client follows redirects.
    pub follow_redirects: bool,
    /// Whether invalid certificates are accepted.
    pub insecure: bool,
    /// Headers that every request carries, each name once.
    pub headers: Vec<(String, String)>,
    /// Address of the proxy that requests go through, if there is one.
    pub proxy: Option<String>,
}

/// What is to be done about the HTTP client once the configuration stands.
#[derive(Debug, Clone)]
pub enum ClientPlan {
    /// The client that was built from the defaults serves.
    KeepDefault,
    /// A client is to be built from these settings.
    Build(ClientSettings),
}

/// The configuration asks for another client than the defaults do: it names
/// a proxy, or its timeout or user agent is not the default one, or it follows
/// redirects, or it accepts invalid certificates, or it has headers.
pub open spec fn client_differs(config: ConfigurationView) -> bool {
    ||| config.proxy.len() > 0
    ||| config.timeout != default_view().timeout
    ||| config.useragent != default_useragent()
    ||| config.follow_redirects
    ||| config.insecure
    ||| config.headers != Map::<Seq<char>, Seq<char>>::empty()
}

/// The settings are those that the configuration asks for. The proxy is
/// absent exactly where the configuration names none.
pub open spec fn client_matches(settings: ClientSettings, config: ConfigurationView) -> bool {
    &&& settings.timeout == config.timeout
    &&& settings.useragent@ == config.useragent
    &&& settings.follow_redirects == config.follow_redirects
    &&& settings.insecure == config.insecure
    &&& distinct_names(settings.headers.deep_view())
    &&& map_of(settings.headers.deep_view()) == config.headers
    &&& settings.proxy.deep_view() == if config.proxy.len() == 0 {
        None
    } else {
        Some(config.proxy)
    }
}

impl Configuration {
    /// Tells whether the configuration asks for another client than the
    /// defaults do.
    pub fn needs_client(&self) -> (r: bool)
        ensures
            r == client_differs(self@),
    {
        !self.proxy.as_str().is_empty() || self.timeout != timeout() || !same_text(
            self.useragent.as_str(),
            useragent().as_str(),
        ) || self.follow_redirects || self.insecure || !self.headers.is_empty()
    }

    /// The settings of the client that the configuration asks for.
    pub fn client_settings(&self) -> (r: ClientSettings)
        ensures
            client_matches(r, self@),
    {
        ClientSettings {
            timeout: self.timeout,
            useragent: self.useragent.clone(),
            follow_redirects: self.follow_redirects,
            insecure: self.insecure,
            headers: self.headers.to_pairs(),
            proxy: if self.proxy.as_str().is_empty() {
                None
            } else {
                Some(self.proxy.clone())
            },
        }
    }

    /// Decides about the HTTP client: a new one is built only where the
    /// configuration asks for another than the defaults do.
    pub fn client_plan(&self) -> (r: ClientPlan)
        ensures
            match r {
                ClientPlan::KeepDefault => !client_differs(self@),
                ClientPlan::Build(settings) => client_differs(self@) && client_matches(
                    settings,
                    self@,
                ),
            },
    {
        if self.needs_client() {
            ClientPlan::Build(self.client_settings())
        } else {
            ClientPlan::KeepDefault
        }
    }
}

/// The defaults ask for no other client than their own.
pub proof fn lemma_defaults_keep_client()
    ensures
        !client_differs(default_view()),
{
}

/// The target is always that of the command line, and an option that the
/// command line gives is what the configuration holds, whatever the file sets.
pub proof fn lemma_command_line_wins(file: Option<FileSettings>, args: CliArgs)
    requires
        resolved(file, args) is Ok,
    ensures
        ({
            let config = resolved(file, args).unwrap();
            &&& config.target_url == args.url@
            &&& args.wordlist matches Some(text) ==> config.wordlist == text@
            &&& args.output matches Some(text) ==> config.output == text@
            &&& args.proxy matches Some(text) ==> config.proxy == text@
            &&& args.useragent matches Some(text) ==> config.useragent == text@
            &&& args.extensions matches Some(texts) ==> config.extensions == texts.deep_view()
            &&& args.threads matches Some(text) ==> decimal(text@, usize::MAX as nat) == Some(
                config.threads as nat,
            )
            &&& args.timeout matches Some(text) ==> decimal(text@, u64::MAX as nat) == Some(
                config.timeout as nat,
            )
            &&& args.statuscodes matches Some(texts) ==> status_codes(texts.deep_view()) == Some(
                config.statuscodes,
            )
            &&& args.verbosity > 0 ==> config.verbosity == args.verbosity % 256
            &&& args.quiet ==> config.quiet
            &&& args.follow_redirects ==> config.follow_redirects
            &&& args.norecursion ==> config.norecursion
            &&& args.insecure ==> config.insecure
        }),
{
}

/// An option that the command line does not give leaves what the file set,
/// and the default where the file set nothing.
pub proof fn lemma_absent_option_keeps_file(file: Option<FileSettings>, args: CliArgs)
    requires
        resolved(file, args) is Ok,
    ensures
        ({
            let config = resolved(file, args).unwrap();
            let below = match file {
                Some(settings) => with_file(default_view(), settings),
                None => default_view(),
            };
            &&& args.wordlist is None ==> config.wordlist == below.wordlist
            &&& args.output is None ==> config.output == below.output
            &&& args.proxy is None ==> config.proxy == below.proxy
            &&& args.useragent is None ==> config.useragent == below.useragent
            &&& args.extensions is None ==> config.extensions == below.extensions
            &&& args.threads is None ==> config.threads == below.threads
            &&& args.timeout is None ==> config.timeout == below.timeout
            &&& args.statuscodes is None ==> config.statuscodes == below.statuscodes
            &&& args.headers is None ==> config.headers == below.headers
            &&& args.verbosity == 0 ==> config.verbosity == below.verbosity
            &&& config.add_slash == below.add_slash
            &&& config.queries == below.queries
        }),
{
}

/// A switch that the file sets stays set where the command line does not
/// give it: the absence of a switch never resets it.
pub proof fn lemma_absent_switch_keeps_file(file: FileSettings, args: CliArgs)
    requires
        resolved(Some(file), args) is Ok,
    ensures
        ({
            let config = resolved(Some(file), args).unwrap();
            &&& file.quiet == Some(true) ==> config.quiet
            &&& file.follow_redirects == Some(true) ==> config.follow_redirects
            &&& file.norecursion == Some(true) ==> config.norecursion
            &&& file.insecure == Some(true) ==> config.insecure
            &&& file.add_slash == Some(true) ==> config.add_slash
        }),
{
}

/// The command line gives a configuration exactly where the numbers and
/// status codes that it gives can be read; what the file sets plays no part.
pub proof fn lemma_resolved_ok(file: Option<FileSettings>, args: CliArgs)
    ensures
        resolved(file, args) is Ok <==> {
            &&& args.threads matches Some(text) ==> decimal(text@, usize::MAX as nat) is Some
            &&& args.statuscodes matches Some(texts) ==> status_codes(texts.deep_view()) is Some
            &&& args.timeout matches Some(text) ==> decimal(text@, u64::MAX as nat) is Some
        },
{
}

} // verus!
