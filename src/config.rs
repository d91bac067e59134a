//! Endpoint resolution: environment values first, then a local settings file,
//! then the same file in a fixed subdirectory.
use vstd::prelude::*;
use crate::error::{Error, ErrorType};

verus! {

/// How requests authenticate.
#[derive(Debug)]
pub enum Credential {
    /// An encoded API key.
    EncodedApiKey(String),
    /// A user name and a password.
    Basic(String, String),
}

/// A credential as the contracts see it.
pub ghost enum CredentialView {
    EncodedApiKey(Seq<char>),
    Basic(Seq<char>, Seq<char>),
}

/// Where the service is and how to authenticate to it. Exactly one kind of
/// credential is held.
#[derive(Debug)]
pub struct Endpoint {
    /// The URL, as its parser writes it back.
    pub url: String,
    pub credential: Credential,
}

/// An endpoint as the contracts see it.
pub ghost struct EndpointView {
    pub url: Seq<char>,
    pub credential: CredentialView,
}

impl View for Credential {
    type V = CredentialView;

    open spec fn view(&self) -> CredentialView {
        match self {
            Credential::EncodedApiKey(k) => CredentialView::EncodedApiKey(k@),
            Credential::Basic(u, p) => CredentialView::Basic(u@, p@),
        }
    }
}

impl View for Endpoint {
    type V = EndpointView;

    open spec fn view(&self) -> EndpointView {
        EndpointView { url: self.url@, credential: self.credential@ }
    }
}

/// An optional text as the contracts see it.
pub open spec fn opt_view(o: Option<String>) -> Option<Seq<char>> {
    match o {
        Some(s) => Some(s@),
        None => None,
    }
}

/// The serialization of a text parsed as an absolute URL, or nothing when it
/// is not one.
pub uninterp spec fn parsed_url(s: Seq<char>) -> Option<Seq<char>>;

/// Relies on `url::Url::parse` (re-exported as `elasticsearch::http::Url`):
/// whether the text is a valid absolute URL, and the URL as it serializes.
#[verifier::external_body]
fn parse_url(s: &str) -> (r: Result<String, String>)
    ensures
        match r {
            Ok(u) => parsed_url(s@) == Some(u@),
            Err(_) => parsed_url(s@) is None,
        },
{
    match elasticsearch::http::Url::parse(s) {
        Ok(u) => Ok(u.to_string()),
        Err(e) => Err(e.to_string()),
    }
}

/// The user name taken when the environment names none.
pub open spec fn default_user() -> Seq<char> {
    "elastic"@
}

/// The endpoint that environment values give, if any: a URL that parses, and
/// an API key, or else a password with a user name (by default `elastic`).
pub open spec fn env_endpoint(
    url: Option<Seq<char>>,
    api_key: Option<Seq<char>>,
    user: Option<Seq<char>>,
    password: Option<Seq<char>>,
) -> Option<EndpointView> {
    match url {
        None => None,
        Some(u) => match parsed_url(u) {
            None => None,
            Some(parsed) => match api_key {
                Some(k) => Some(EndpointView { url: parsed, credential: CredentialView::EncodedApiKey(k) }),
                None => match password {
                    Some(p) => Some(
                        EndpointView {
                            url: parsed,
                            credential: CredentialView::Basic(
                                match user {
                                    Some(n) => n,
                                    None => default_user(),
                                },
                                p,
                            ),
                        },
                    ),
                    None => None,
                },
            },
        },
    }
}

/// A line without one trailing carriage return.
pub open spec fn strip_cr(line: Seq<char>) -> Seq<char> {
    if line.len() > 0 && line.last() == '\r' {
        line.drop_last()
    } else {
        line
    }
}

/// Reading a text left to right: the lines completed so far (each ended by a
/// newline, which is dropped with a carriage return just before it), and the
/// characters of the line under way.
pub open spec fn scan_lines(text: Seq<char>) -> (Seq<Seq<char>>, Seq<char>)
    decreases text.len(),
{
    if text.len() == 0 {
        (Seq::empty(), Seq::empty())
    } else {
        let (done, cur) = scan_lines(text.drop_last());
        if text.last() == '\n' {
            (done.push(strip_cr(cur)), Seq::empty())
        } else {
            (done, cur.push(text.last()))
        }
    }
}

/// The lines of a text as `str::lines` gives them: a final line needs no
/// newline, and an empty final line is not one.
pub open spec fn text_lines(text: Seq<char>) -> Seq<Seq<char>> {
    let (done, cur) = scan_lines(text);
    if cur.len() == 0 {
        done
    } else {
        done.push(cur)
    }
}

/// Whether `i` is the position of the first `=` of a line.
pub open spec fn first_equals_at(line: Seq<char>, i: int) -> bool {
    &&& 0 <= i < line.len()
    &&& line[i] == '='
    &&& forall|j: int| 0 <= j < i ==> line[j] != '='
}

/// A `NAME=VALUE` line split at its first `=`; nothing for a line without one.
pub open spec fn split_assignment(line: Seq<char>) -> Option<(Seq<char>, Seq<char>)> {
    if exists|i: int| first_equals_at(line, i) {
        let i = choose|i: int| first_equals_at(line, i);
        Some((line.take(i), line.skip(i + 1)))
    } else {
        None
    }
}

/// The value of the last line among `lines` that assigns `key`.
pub open spec fn last_assignment(lines: Seq<Seq<char>>, key: Seq<char>) -> Option<Seq<char>>
    decreases lines.len(),
{
    if lines.len() == 0 {
        None
    } else {
        match split_assignment(lines.last()) {
            Some((k, v)) => if k == key {
                Some(v)
            } else {
                last_assignment(lines.drop_last(), key)
            },
            None => last_assignment(lines.drop_last(), key),
        }
    }
}

/// The value a settings text assigns to `key`: the last assignment wins.
pub open spec fn setting(text: Seq<char>, key: Seq<char>) -> Option<Seq<char>> {
    last_assignment(text_lines(text), key)
}

/// The URL that a settings text gives: the local host, at the port it
/// assigns, or at the default port.
pub open spec fn settings_url_text(text: Seq<char>) -> Seq<char> {
    "http://localhost:"@ + match setting(text, "ES_LOCAL_PORT"@) {
        Some(p) => p,
        None => "9200"@,
    }
}

/// The endpoint that a settings text gives, if any: its URL must parse, and
/// it must assign an API key.
pub open spec fn settings_endpoint(text: Seq<char>) -> Option<EndpointView> {
    match parsed_url(settings_url_text(text)) {
        None => None,
        Some(u) => match setting(text, "ES_LOCAL_API_KEY"@) {
            Some(k) => Some(EndpointView { url: u, credential: CredentialView::EncodedApiKey(k) }),
            None => None,
        },
    }
}

/// The description of a settings text that assigns no API key.
pub open spec fn missing_key_text() -> Seq<char> {
    "could not find ES_LOCAL_API_KEY in start-local .env file"@
}

/// The description of a resolution that no source satisfied.
pub open spec fn resolution_failed_text() -> Seq<char> {
    "failed to initialise client from either environment variables or start-local .env file"@
}

/// The endpoint from a settings file that could be read, if any.
pub open spec fn file_endpoint(text: Option<Seq<char>>) -> Option<EndpointView> {
    match text {
        Some(t) => settings_endpoint(t),
        None => None,
    }
}

/// The endpoint of the first source that gives one: the environment, the
/// local settings file, the settings file in the subdirectory.
pub open spec fn resolved_endpoint(
    url: Option<Seq<char>>,
    api_key: Option<Seq<char>>,
    user: Option<Seq<char>>,
    password: Option<Seq<char>>,
    local: Option<Seq<char>>,
    nested: Option<Seq<char>>,
) -> Option<EndpointView> {
    match env_endpoint(url, api_key, user, password) {
        Some(e) => Some(e),
        None => match file_endpoint(local) {
            Some(e) => Some(e),
            None => file_endpoint(nested),
        },
    }
}

/// Environment values with a URL that parses and with an API key or a
/// password always resolve, whatever the settings files hold; the API key is
/// the credential whenever one is given, else the user name (by default
/// `elastic`) and password are.
pub proof fn lemma_env_resolution(
    url: Option<Seq<char>>,
    api_key: Option<Seq<char>>,
    user: Option<Seq<char>>,
    password: Option<Seq<char>>,
    local: Option<Seq<char>>,
    nested: Option<Seq<char>>,
)
    requires
        url is Some,
        parsed_url(url->0) is Some,
        api_key is Some || password is Some,
    ensures
        resolved_endpoint(url, api_key, user, password, local, nested) == env_endpoint(
            url,
            api_key,
            user,
            password,
        ),
        resolved_endpoint(url, api_key, user, password, local, nested) is Some,
        resolved_endpoint(url, api_key, user, password, local, nested)->0.url == parsed_url(url->0)->0,
        api_key is Some ==> resolved_endpoint(url, api_key, user, password, local, nested)->0.credential
            == CredentialView::EncodedApiKey(api_key->0),
        api_key is None ==> resolved_endpoint(url, api_key, user, password, local, nested)->0.credential
            == CredentialView::Basic(
            match user {
                Some(n) => n,
                None => default_user(),
            },
            password->0,
        ),
{
}

/// A settings text that assigns no API key gives no endpoint, whatever URL it
/// makes; so when the environment gives none either and neither settings file
/// assigns a key, resolution fails.
pub proof fn lemma_settings_need_api_key(
    url: Option<Seq<char>>,
    api_key: Option<Seq<char>>,
    user: Option<Seq<char>>,
    password: Option<Seq<char>>,
    local: Seq<char>,
    nested: Seq<char>,
)
    requires
        setting(local, "ES_LOCAL_API_KEY"@) is None,
        setting(nested, "ES_LOCAL_API_KEY"@) is None,
    ensures
        settings_endpoint(local) is None,
        settings_endpoint(nested) is None,
        env_endpoint(url, api_key, user, password) is None ==> resolved_endpoint(
            url,
            api_key,
            user,
            password,
            Some(local),
            Some(nested),
        ) is None,
{
}

/// The lines of a text, as `str::lines` splits them.
pub fn lines_of(text: &str) -> (r: Vec<String>)
    ensures
        r@.map_values(|l: String| l@) == text_lines(text@),
{
    let n = text.unicode_len();
    let mut out: Vec<String> = Vec::new();
    let mut start: usize = 0;
    let mut i: usize = 0;
    while i < n
        invariant
            0 <= start <= i <= n,
            n == text@.len(),
            scan_lines(text@.take(i as int)) == (
                out@.map_values(|l: String| l@),
                text@.subrange(start as int, i as int),
            ),
        decreases n - i,
    {
        let c = text.get_char(i);
        let ghost pre = text@.take(i as int);
        assert(text@.take(i + 1).drop_last() == pre);
        assert(text@.take(i + 1).last() == c);
        if c == '\n' {
            let ghost cur = text@.subrange(start as int, i as int);
            let mut end = i;
            if i > start && text.get_char(i - 1) == '\r' {
                end = i - 1;
            }
            assert(text@.subrange(start as int, end as int) == strip_cr(cur));
            let line = text.substring_char(start, end).to_owned();
            let ghost before = out@.map_values(|l: String| l@);
            out.push(line);
            assert(out@.map_values(|l: String| l@) =~= before.push(strip_cr(cur)));
            start = i + 1;
            assert(text@.subrange(start as int, start as int) =~= Seq::<char>::empty());
        } else {
            assert(text@.subrange(start as int, i + 1) =~= text@.subrange(start as int, i as int).push(c));
        }
        i = i + 1;
    }
    assert(text@.take(n as int) =~= text@);
    if start < n {
        let line = text.substring_char(start, n).to_owned();
        let ghost before = out@.map_values(|l: String| l@);
        out.push(line);
        assert(out@.map_values(|l: String| l@) =~= before.push(text@.subrange(start as int, n as int)));
    }
    out
}

/// Splits a `NAME=VALUE` line at its first `=`.
pub fn split_assignment_of(line: &str) -> (r: Option<(String, String)>)
    ensures
        match r {
            Some((k, v)) => split_assignment(line@) == Some((k@, v@)),
            None => split_assignment(line@) is None,
        },
{
    let n = line.unicode_len();
    let mut i: usize = 0;
    while i < n
        invariant
            0 <= i <= n,
            n == line@.len(),
            forall|j: int| 0 <= j < i ==> line@[j] != '=',
        decreases n - i,
    {
        if line.get_char(i) == '=' {
            assert(first_equals_at(line@, i as int));
            let ghost c = choose|c: int| first_equals_at(line@, c);
            assert(c == i as int) by {
                if c < i {
                    assert(line@[c] != '=');
                }
                if c > i {
                    assert(line@[i as int] != '=');
                }
            }
            let k = line.substring_char(0, i).to_owned();
            let v = line.substring_char(i + 1, n).to_owned();
            assert(k@ == line@.take(i as int));
            assert(v@ == line@.skip(i + 1));
            return Some((k, v));
        }
        i = i + 1;
    }
    assert(!exists|c: int| first_equals_at(line@, c)) by {
        if exists|c: int| first_equals_at(line@, c) {
            let c = choose|c: int| first_equals_at(line@, c);
            assert(line@[c] != '=');
        }
    }
    None
}

/// The value a settings text assigns to `key`; the last assignment wins.
pub fn setting_of(text: &str, key: &str) -> (r: Option<String>)
    ensures
        opt_view(r) == setting(text@, key@),
{
    let lines = lines_of(text);
    let ghost lv = lines@.map_values(|l: String| l@);
    let wanted = String::from_str(key);
    let mut found: Option<String> = None;
    let mut i: usize = 0;
    while i < lines.len()
        invariant
            0 <= i <= lines.len(),
            lv == lines@.map_values(|l: String| l@),
            lv == text_lines(text@),
            wanted@ == key@,
            opt_view(found) == last_assignment(lv.take(i as int), key@),
        decreases lines.len() - i,
    {
        assert(lv.take(i + 1).drop_last() == lv.take(i as int));
        assert(lv.take(i + 1).last() == lines@[i as int]@);
        match split_assignment_of(lines[i].as_str()) {
            Some((k, v)) => {
                if k == wanted {
                    found = Some(v);
                }
            },
            None => {},
        }
        i = i + 1;
    }
    assert(lv.take(lines.len() as int) =~= lv);
    found
}

impl Endpoint {
    /// The endpoint that environment values give: a URL that parses, and an
    /// API key, or else a password with a user name (by default `elastic`).
    /// An API key wins over a user name and password.
    pub fn from_env_vars(
        url: Option<String>,
        api_key: Option<String>,
        user: Option<String>,
        password: Option<String>,
    ) -> (r: Result<Endpoint, Error>)
        ensures
            match r {
                Ok(e) => env_endpoint(opt_view(url), opt_view(api_key), opt_view(user), opt_view(password))
                    == Some(e@),
                Err(err) => env_endpoint(opt_view(url), opt_view(api_key), opt_view(user), opt_view(password))
                    is None && err.subtype == ErrorType::ConfigurationError,
            },
    {
        proof {
            reveal_strlit("elastic");
        }
        let url = match url {
            Some(u) => u,
            None => {
                return Err(
                    Error::new(
                        ErrorType::ConfigurationError,
                        String::from_str("failed to load Elasticsearch URL from ESCLI_URL"),
                    ),
                );
            },
        };
        let parsed = match parse_url(url.as_str()) {
            Ok(p) => p,
            Err(why) => {
                let mut description = String::from_str("failed to parse ESCLI_URL (");
                description.append(why.as_str());
                description.append(")");
                return Err(Error::new(ErrorType::ConfigurationError, description));
            },
        };
        let credential = match api_key {
            Some(k) => Credential::EncodedApiKey(k),
            None => match password {
                Some(p) => {
                    let name = match user {
                        Some(n) => n,
                        None => String::from_str("elastic"),
                    };
                    Credential::Basic(name, p)
                },
                None => {
                    return Err(
                        Error::new(
                            ErrorType::ConfigurationError,
                            String::from_str(
                                "failed to load Elasticsearch credentials from either ESCLI_API_KEY or ESCLI_USER/ESCLI_PASSWORD",
                            ),
                        ),
                    );
                },
            },
        };
        Ok(Endpoint { url: parsed, credential })
    }

    /// The endpoint that the text of a local settings file gives: the local
    /// host at the port it assigns to `ES_LOCAL_PORT` (9200 when it assigns
    /// none), authenticated by the key it assigns to `ES_LOCAL_API_KEY`. It
    /// fails without that key, even when the URL is good.
    pub fn for_start_local(text: &str) -> (r: Result<Endpoint, Error>)
        ensures
            match r {
                Ok(e) => settings_endpoint(text@) == Some(e@),
                Err(err) => settings_endpoint(text@) is None && err.subtype == ErrorType::ConfigurationError && (
                parsed_url(settings_url_text(text@)) is Some ==> err.description@ == missing_key_text()),
            },
    {
        let mut url_text = String::from_str("http://localhost:");
        match setting_of(text, "ES_LOCAL_PORT") {
            Some(p) => url_text.append(p.as_str()),
            None => url_text.append("9200"),
        }
        let parsed = match parse_url(url_text.as_str()) {
            Ok(p) => p,
            Err(why) => {
                let mut description = String::from_str("failed to parse URL ");
                description.append(url_text.as_str());
                description.append(" (");
                description.append(why.as_str());
                description.append(")");
                return Err(Error::new(ErrorType::ConfigurationError, description));
            },
        };
        match setting_of(text, "ES_LOCAL_API_KEY") {
            Some(k) => Ok(Endpoint { url: parsed, credential: Credential::EncodedApiKey(k) }),
            None => Err(
                Error::new(
                    ErrorType::ConfigurationError,
                    String::from_str("could not find ES_LOCAL_API_KEY in start-local .env file"),
                ),
            ),
        }
    }

    /// The endpoint of the first source that gives one: the environment
    /// values, then the local settings file, then the settings file in the
    /// subdirectory (`None` for a file that could not be read). When none
    /// does, a single configuration error says so.
    pub fn resolve(
        url: Option<String>,
        api_key: Option<String>,
        user: Option<String>,
        password: Option<String>,
        local: Option<String>,
        nested: Option<String>,
    ) -> (r: Result<Endpoint, Error>)
        ensures
            match r {
                Ok(e) => resolved_endpoint(
                    opt_view(url),
                    opt_view(api_key),
                    opt_view(user),
                    opt_view(password),
                    opt_view(local),
                    opt_view(nested),
                ) == Some(e@),
                Err(err) => resolved_endpoint(
                    opt_view(url),
                    opt_view(api_key),
                    opt_view(user),
                    opt_view(password),
                    opt_view(local),
                    opt_view(nested),
                ) is None && err.subtype == ErrorType::ConfigurationError && err.description@
                    == resolution_failed_text(),
            },
    {
        if let Ok(e) = Endpoint::from_env_vars(url, api_key, user, password) {
            return Ok(e);
        }
        if let Some(text) = local {
            if let Ok(e) = Endpoint::for_start_local(text.as_str()) {
                return Ok(e);
            }
        }
        if let Some(text) = nested {
            if let Ok(e) = Endpoint::for_start_local(text.as_str()) {
                return Ok(e);
            }
        }
        Err(
            Error::new(
                ErrorType::ConfigurationError,
                String::from_str(
                    "failed to initialise client from either environment variables or start-local .env file",
                ),
            ),
        )
    }
}

} // verus!
