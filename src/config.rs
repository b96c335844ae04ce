use vstd::prelude::*;
use vstd::string::*;
use crate::archive::strings_view;
use crate::ids::{uuid_string, uuid_text};

verus! {

/// The character of a decimal digit.
pub open spec fn digit_char(d: nat) -> char {
    ((48 + d) as u8) as char
}

/// The decimal text of a number, without sign or leading zeros.
pub open spec fn decimal(n: nat) -> Seq<char>
    decreases n,
{
    if n < 10 {
        seq![digit_char(n)]
    } else {
        decimal(n / 10) + seq![digit_char(n % 10)]
    }
}

fn digit_text(d: u64) -> (r: String)
    requires
        d < 10,
    ensures
        r@ == seq![digit_char(d as nat)],
{
    proof {
        reveal_strlit("0");
        reveal_strlit("1");
        reveal_strlit("2");
        reveal_strlit("3");
        reveal_strlit("4");
        reveal_strlit("5");
        reveal_strlit("6");
        reveal_strlit("7");
        reveal_strlit("8");
        reveal_strlit("9");
    }
    let r = if d == 0 {
        String::from_str("0")
    } else if d == 1 {
        String::from_str("1")
    } else if d == 2 {
        String::from_str("2")
    } else if d == 3 {
        String::from_str("3")
    } else if d == 4 {
        String::from_str("4")
    } else if d == 5 {
        String::from_str("5")
    } else if d == 6 {
        String::from_str("6")
    } else if d == 7 {
        String::from_str("7")
    } else if d == 8 {
        String::from_str("8")
    } else {
        String::from_str("9")
    };
    assert(r@ =~= seq![digit_char(d as nat)]);
    r
}

/// The decimal text of `n`.
pub(crate) fn decimal_string(n: u64) -> (r: String)
    ensures
        r@ == decimal(n as nat),
    decreases n,
{
    if n < 10 {
        digit_text(n)
    } else {
        let mut r = decimal_string(n / 10);
        let d = digit_text(n % 10);
        r.append(d.as_str());
        r
    }
}

/// A character with the Unicode `White_Space` property: the 25 code points
/// U+0009 to U+000D, U+0020, U+0085, U+00A0, U+1680, U+2000 to U+200A,
/// U+2028, U+2029, U+202F, U+205F and U+3000.
pub open spec fn is_white_space(c: char) -> bool {
    let v = c as u32;
    (0x9 <= v <= 0xD) || v == 0x20 || v == 0x85 || v == 0xA0 || v == 0x1680 || (0x2000 <= v <= 0x200A) || v
        == 0x2028 || v == 0x2029 || v == 0x202F || v == 0x205F || v == 0x3000
}

fn char_is_whitespace(c: char) -> (r: bool)
    ensures
        r == is_white_space(c),
{
    let v = c as u32;
    (0x9 <= v && v <= 0xD) || v == 0x20 || v == 0x85 || v == 0xA0 || v == 0x1680 || (0x2000 <= v && v <= 0x200A)
        || v == 0x2028 || v == 0x2029 || v == 0x202F || v == 0x205F || v == 0x3000
}

/// What matching `text` against the regular expression `pattern` gives:
/// `None` when the pattern is malformed, else whether it matches somewhere.
pub uninterp spec fn regex_finds(pattern: Seq<char>, text: Seq<char>) -> Option<bool>;

/// Relies on `regex::Regex::new`, which refuses a malformed pattern, and on
/// `Regex::is_match`.
#[verifier::external_body]
fn regex_match(pattern: &str, text: &str) -> (r: Option<bool>)
    ensures
        r == regex_finds(pattern@, text@),
{
    match regex::Regex::new(pattern) {
        Ok(re) => Some(re.is_match(text)),
        Err(_) => None,
    }
}

/// A token secret made from a random identifier `seed` drawn by the
/// caller: the identifier's hyphenated text.
pub fn generate_secret(seed: u128) -> (r: String)
    ensures
        r@ == uuid_text(seed),
{
    uuid_string(seed)
}

/// Text made of white space only (empty text included).
pub open spec fn is_blank(s: Seq<char>) -> bool {
    forall|i: int| 0 <= i < s.len() ==> is_white_space(#[trigger] s[i])
}

pub(crate) fn blank(s: &str) -> (r: bool)
    ensures
        r == is_blank(s@),
{
    let n = s.unicode_len();
    let mut i: usize = 0;
    while i < n
        invariant
            n == s@.len(),
            i <= n,
            forall|j: int| 0 <= j < i ==> is_white_space(#[trigger] s@[j]),
        decreases n - i,
    {
        if !char_is_whitespace(s.get_char(i)) {
            return false;
        }
        i = i + 1;
    }
    true
}

/// Configuration checks that only warn: each returns the warnings it finds.
pub trait Validate {
    /// The warnings this configuration deserves, in order.
    spec fn expected_warnings(&self) -> Seq<Seq<char>>;

    fn validate(&self) -> (r: Vec<String>)
        ensures
            strings_view(r@) == self.expected_warnings(),
    ;
}

/// Where the HTTP server listens and how it names itself.
#[derive(Debug, Clone)]
pub struct ServerConfig {
    /// The public base URL of the service.
    pub url: String,
    pub host: String,
    pub port: u16,
    pub jwt_secret: String,
}

/// The shape a base URL is expected to have.
pub const URL_PATTERN: &'static str = "^(https?)://\\S+$";

impl ServerConfig {
    /// `{host}:{port}`.
    pub fn bind_url(&self) -> (r: String)
        ensures
            r@ == self.host@ + seq![':'] + decimal(self.port as nat),
    {
        proof {
            reveal_strlit(":");
        }
        let mut r = self.host.clone();
        r.append(":");
        let p = decimal_string(self.port as u64);
        r.append(p.as_str());
        r
    }
}

impl Validate for ServerConfig {
    open spec fn expected_warnings(&self) -> Seq<Seq<char>> {
        if is_blank(self.url@) {
            seq!["server.url is empty"@]
        } else if regex_finds(URL_PATTERN@, self.url@) == Some(true) {
            Seq::empty()
        } else {
            seq!["server.url '"@ + self.url@ + "' does not look like a valid http(s) URL"@]
        }
    }

    fn validate(&self) -> (r: Vec<String>) {
        let mut warnings: Vec<String> = Vec::new();
        if blank(self.url.as_str()) {
            warnings.push(String::from_str("server.url is empty"));
        } else {
            let ok = regex_match(URL_PATTERN, self.url.as_str());
            if !(ok == Some(true)) {
                let w = String::from_str("server.url '").concat(self.url.as_str()).concat(
                    "' does not look like a valid http(s) URL",
                );
                warnings.push(w);
            }
        }
        assert(strings_view(warnings@) =~= self.expected_warnings());
        warnings
    }
}

/// Where static site files live.
#[derive(Debug, Clone)]
pub struct StaticStorageConfig {
    /// The directory holding the site trees.
    pub path: String,
}

/// One configured persistence backend.
#[derive(Debug, Clone)]
pub struct StorageEntry {
    /// An optional name for diagnostics.
    pub name: Option<String>,
    /// The backend: `sled`, `sqlite` or `postgres`.
    pub backend: String,
    /// The directory of a file-backed store.
    pub path: Option<String>,
}

/// Static file storage and the persistence backends, in order of preference.
#[derive(Debug, Clone)]
pub struct StorageConfig {
    pub sites: StaticStorageConfig,
    pub db: Vec<StorageEntry>,
}

pub open spec fn is_known_backend(b: Seq<char>) -> bool {
    b == "sled"@ || b == "sqlite"@ || b == "postgres"@
}

pub open spec fn is_file_backend(b: Seq<char>) -> bool {
    b == "sled"@ || b == "sqlite"@
}

/// The warnings about the `i`-th backend entry.
pub open spec fn entry_warnings(i: nat, e: StorageEntry) -> Seq<Seq<char>> {
    (if !is_known_backend(e.backend@) {
        seq![
            "storage.storages["@ + decimal(i) + "].backend '"@ + e.backend@
                + "' is not supported; must be one of: sled, sqlite, postgres"@,
        ]
    } else {
        Seq::empty()
    }) + (if is_file_backend(e.backend@) && e.path is None {
        seq!["storage.storages["@ + decimal(i) + "] with backend '"@ + e.backend@ + "' requires a 'path' field"@]
    } else {
        Seq::empty()
    })
}

/// The warnings about the backend entries, in order.
pub open spec fn db_warnings(db: Seq<StorageEntry>) -> Seq<Seq<char>>
    decreases db.len(),
{
    if db.len() == 0 {
        Seq::empty()
    } else {
        db_warnings(db.drop_last()) + entry_warnings((db.len() - 1) as nat, db.last())
    }
}

/// Some name in `backends` is `b`.
pub open spec fn backend_listed(backends: Seq<&str>, b: Seq<char>) -> bool {
    exists|k: int| 0 <= k < backends.len() && (#[trigger] backends[k])@ == b
}

impl Validate for StorageConfig {
    open spec fn expected_warnings(&self) -> Seq<Seq<char>> {
        (if self.db@.len() == 0 {
            seq!["storage.db is empty; no storage configured"@]
        } else {
            Seq::empty()
        }) + db_warnings(self.db@)
    }

    fn validate(&self) -> (r: Vec<String>) {
        let mut warns: Vec<String> = Vec::new();
        if self.db.len() == 0 {
            warns.push(String::from_str("storage.db is empty; no storage configured"));
        }
        let ghost head = strings_view(warns@);
        assert(self.db@.subrange(0, 0) =~= Seq::<StorageEntry>::empty());
        let mut i: usize = 0;
        while i < self.db.len()
            invariant
                i <= self.db@.len(),
                head == (if self.db@.len() == 0 {
                    seq!["storage.db is empty; no storage configured"@]
                } else {
                    Seq::<Seq<char>>::empty()
                }),
                strings_view(warns@) == head + db_warnings(self.db@.subrange(0, i as int)),
            decreases self.db@.len() - i,
        {
            let e = &self.db[i];
            let ghost before = strings_view(warns@);
            let known = e.backend == String::from_str("sled") || e.backend == String::from_str("sqlite")
                || e.backend == String::from_str("postgres");
            let file_based = e.backend == String::from_str("sled") || e.backend == String::from_str("sqlite");
            let idx = decimal_string(i as u64);
            if !known {
                let w = String::from_str("storage.storages[").concat(idx.as_str()).concat("].backend '").concat(
                    e.backend.as_str(),
                ).concat("' is not supported; must be one of: sled, sqlite, postgres");
                warns.push(w);
            }
            if file_based && e.path.is_none() {
                let w = String::from_str("storage.storages[").concat(idx.as_str()).concat("] with backend '").concat(
                    e.backend.as_str(),
                ).concat("' requires a 'path' field");
                warns.push(w);
            }
            proof {
                let sub = self.db@.subrange(0, i + 1);
                assert(sub.drop_last() =~= self.db@.subrange(0, i as int));
                assert(sub.last() == *e);
                assert(strings_view(warns@) =~= before + entry_warnings(i as nat, *e));
            }
            i = i + 1;
        }
        assert(self.db@.subrange(0, self.db@.len() as int) =~= self.db@);
        warns
    }
}

impl StorageConfig {
    /// The first backend entry whose backend is one of `backends`.
    pub fn first_db_with_backend(&self, backends: &[&str]) -> (r: Option<&StorageEntry>)
        ensures
            r is None <==> forall|j: int| 0 <= j < self.db@.len() ==> !backend_listed(backends@, #[trigger] self.db@[j].backend@),
            r matches Some(e) ==> exists|j: int| 0 <= j < self.db@.len() && self.db@[j] == *e && backend_listed(backends@, e.backend@)
                && forall|k: int| 0 <= k < j ==> !backend_listed(backends@, #[trigger] self.db@[k].backend@),
    {
        let mut i: usize = 0;
        while i < self.db.len()
            invariant
                i <= self.db@.len(),
                forall|j: int| 0 <= j < i ==> !backend_listed(backends@, #[trigger] self.db@[j].backend@),
            decreases self.db@.len() - i,
        {
            let e = &self.db[i];
            let mut k: usize = 0;
            while k < backends.len()
                invariant
                    i < self.db@.len(),
                    k <= backends@.len(),
                    *e == self.db@[i as int],
                    forall|j: int| 0 <= j < i ==> !backend_listed(backends@, #[trigger] self.db@[j].backend@),
                    forall|m: int| 0 <= m < k ==> (#[trigger] backends@[m])@ != e.backend@,
                decreases backends@.len() - k,
            {
                if String::from_str(backends[k]) == e.backend {
                    assert(backends@[k as int]@ == e.backend@);
                    assert(backend_listed(backends@, e.backend@));
                    return Some(e);
                }
                k = k + 1;
            }
            assert(!backend_listed(backends@, self.db@[i as int].backend@));
            i = i + 1;
        }
        None
    }
}

/// How users authenticate.
#[derive(Debug, Clone)]
pub struct AuthConfig {
    pub allow_plaintext_password: bool,
    /// Token lifetime in hours.
    pub token_expiration_hours: i64,
}

impl Validate for AuthConfig {
    open spec fn expected_warnings(&self) -> Seq<Seq<char>> {
        if self.token_expiration_hours <= 0 {
            seq!["auth.token_expiration_hours must be > 0"@]
        } else {
            Seq::empty()
        }
    }

    fn validate(&self) -> (r: Vec<String>) {
        let mut warns: Vec<String> = Vec::new();
        if self.token_expiration_hours <= 0 {
            warns.push(String::from_str("auth.token_expiration_hours must be > 0"));
        }
        assert(strings_view(warns@) =~= self.expected_warnings());
        warns
    }
}

/// The whole service configuration.
#[derive(Debug, Clone)]
pub struct Config {
    pub server: ServerConfig,
    pub storage: StorageConfig,
    pub auth: AuthConfig,
}

/// All configuration warnings: the server's, then the storage's, then the
/// authentication's.
pub fn validate_config(config: &Config) -> (r: Vec<String>)
    ensures
        strings_view(r@) == config.server.expected_warnings() + config.storage.expected_warnings()
            + config.auth.expected_warnings(),
{
    let mut all = config.server.validate();
    let ghost a = strings_view(all@);
    let mut s = config.storage.validate();
    let ghost b = strings_view(s@);
    all.append(&mut s);
    assert(strings_view(all@) =~= a + b);
    let mut t = config.auth.validate();
    let ghost c = strings_view(t@);
    all.append(&mut t);
    assert(strings_view(all@) =~= a + b + c);
    all
}

impl Config {
    /// The default configuration with the given token secret: listens on
    /// `0.0.0.0:8080` with no public URL; files under `./data/sites`; one
    /// `sled` store under `./data/sled`; plaintext passwords allowed; tokens
    /// valid for a day.
    pub fn with_secret(jwt_secret: String) -> (r: Config)
        ensures
            r.server.url@ == ""@,
            r.server.host@ == "0.0.0.0"@,
            r.server.port == 8080,
            r.server.jwt_secret@ == jwt_secret@,
            r.storage.sites.path@ == "./data/sites"@,
            r.storage.db@.len() == 1,
            r.storage.db@[0].name matches Some(n) && n@ == "default"@,
            r.storage.db@[0].backend@ == "sled"@,
            r.storage.db@[0].path matches Some(p) && p@ == "./data/sled"@,
            r.auth.allow_plaintext_password,
            r.auth.token_expiration_hours == 24,
    {
        Config {
            server: ServerConfig {
                url: String::from_str(""),
                host: String::from_str("0.0.0.0"),
                port: 8080,
                jwt_secret,
            },
            storage: StorageConfig {
                sites: StaticStorageConfig { path: String::from_str("./data/sites") },
                db: vec![
                    StorageEntry {
                        name: Some(String::from_str("default")),
                        backend: String::from_str("sled"),
                        path: Some(String::from_str("./data/sled")),
                    },
                ],
            },
            auth: AuthConfig { allow_plaintext_password: true, token_expiration_hours: 24 },
        }
    }
}

/// `s` with every backslash turned into a forward slash.
pub open spec fn slashes_forward(s: Seq<char>) -> Seq<char> {
    Seq::new(s.len(), |i: int| if s[i] == '\\' { '/' } else { s[i] })
}

fn forward_slashes(s: &str) -> (r: String)
    ensures
        r@ == slashes_forward(s@),
{
    let n = s.unicode_len();
    let mut r = String::new();
    let mut i: usize = 0;
    while i < n
        invariant
            n == s@.len(),
            i <= n,
            r@ == slashes_forward(s@).subrange(0, i as int),
        decreases n - i,
    {
        let ghost before = r@;
        let c = s.get_char(i);
        if c == '\\' {
            r.append("/");
            proof {
                reveal_strlit("/");
            }
            assert("/"@ =~= seq!['/']);
        } else {
            r.append(s.substring_char(i, i + 1));
            assert(s@.subrange(i as int, i + 1) =~= seq![c]);
        }
        assert(r@ =~= before + seq![slashes_forward(s@)[i as int]]);
        assert(r@ =~= slashes_forward(s@).subrange(0, i + 1));
        i = i + 1;
    }
    assert(slashes_forward(s@).subrange(0, n as int) =~= slashes_forward(s@));
    r
}

/// The connection string of a backend entry: for `postgres`, the URL given
/// by the environment (empty when there is none); for `sqlite`, a database
/// file `db.sqlite` in the entry's directory; for `sled`, the directory
/// itself; for anything else, empty.
pub open spec fn database_url_of(e: StorageEntry, env_url: Option<Seq<char>>) -> Seq<char> {
    if e.backend@ == "postgres"@ {
        match env_url {
            Some(u) => u,
            None => Seq::empty(),
        }
    } else if e.backend@ == "sqlite"@ {
        "sqlite:"@ + slashes_forward(e.path->0@) + "/db.sqlite?mode=rwc"@
    } else if e.backend@ == "sled"@ {
        e.path->0@
    } else {
        Seq::empty()
    }
}

/// The connection string for a backend entry; `env_url` is the
/// `DATABASE_URL` of the environment, if set. File-backed entries must name
/// their directory.
pub fn get_database_url(db_entry: &StorageEntry, env_url: Option<String>) -> (r: String)
    requires
        is_file_backend(db_entry.backend@) ==> db_entry.path is Some,
    ensures
        r@ == database_url_of(*db_entry, match env_url { Some(u) => Some(u@), None => None }),
{
    if db_entry.backend == String::from_str("postgres") {
        match env_url {
            Some(u) => u,
            None => String::new(),
        }
    } else if db_entry.backend == String::from_str("sqlite") {
        match &db_entry.path {
            Some(p) => {
                let dir = forward_slashes(p.as_str());
                String::from_str("sqlite:").concat(dir.as_str()).concat("/db.sqlite?mode=rwc")
            },
            None => String::new(),
        }
    } else if db_entry.backend == String::from_str("sled") {
        match &db_entry.path {
            Some(p) => p.clone(),
            None => String::new(),
        }
    } else {
        String::new()
    }
}

} // verus!
