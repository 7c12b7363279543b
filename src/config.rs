use vstd::prelude::*;
use vstd::string::*;
use crate::tree::{
    entries_view, find_key, lemma_table_view, merge_spec, merge_toml_values, table_get, Tree, TreeV,
};

verus! {

/// The configuration record as it is written in the files.
#[derive(Debug, PartialEq)]
pub struct RawConfig {
    pub jira_url: String,
    pub issue_query: String,
    pub retry_query: String,
    pub user_login: Option<String>,
    pub api_token: Option<String>,
    pub pat_token: Option<String>,
    pub always_confirm_date: Option<bool>,
    pub always_short_branch_names: Option<bool>,
    pub max_query_results: Option<u32>,
    pub enable_comment_prompts: Option<bool>,
    pub one_transition_auto_move: Option<bool>,
    pub inclusive_filters: Option<bool>,
    pub timeout: Option<u64>,
}

/// The model of a [`RawConfig`].
pub struct RawConfigV {
    pub jira_url: Seq<char>,
    pub issue_query: Seq<char>,
    pub retry_query: Seq<char>,
    pub user_login: Option<Seq<char>>,
    pub api_token: Option<Seq<char>>,
    pub pat_token: Option<Seq<char>>,
    pub always_confirm_date: Option<bool>,
    pub always_short_branch_names: Option<bool>,
    pub max_query_results: Option<u32>,
    pub enable_comment_prompts: Option<bool>,
    pub one_transition_auto_move: Option<bool>,
    pub inclusive_filters: Option<bool>,
    pub timeout: Option<u64>,
}

pub open spec fn opt_view(o: Option<String>) -> Option<Seq<char>> {
    match o {
        Some(s) => Some(s@),
        None => None,
    }
}

impl RawConfig {
    pub open spec fn view(&self) -> RawConfigV {
        RawConfigV {
            jira_url: self.jira_url@,
            issue_query: self.issue_query@,
            retry_query: self.retry_query@,
            user_login: opt_view(self.user_login),
            api_token: opt_view(self.api_token),
            pat_token: opt_view(self.pat_token),
            always_confirm_date: self.always_confirm_date,
            always_short_branch_names: self.always_short_branch_names,
            max_query_results: self.max_query_results,
            enable_comment_prompts: self.enable_comment_prompts,
            one_transition_auto_move: self.one_transition_auto_move,
            inclusive_filters: self.inclusive_filters,
            timeout: self.timeout,
        }
    }
}

/// How the client authenticates.
#[derive(Debug, PartialEq)]
pub enum Credential {
    Anonymous,
    ApiToken { login: String, token: String },
    PersonalAccessToken(String),
}

/// What the issue-tracker client is built from.
#[derive(Debug, PartialEq)]
pub struct JiraClientConfig {
    pub credential: Credential,
    pub max_query_results: u32,
    pub url: String,
    pub timeout: u64,
}

/// The resolved configuration.
#[derive(Debug, PartialEq)]
pub struct Config {
    pub issue_query: String,
    pub retry_query: String,
    pub always_confirm_date: Option<bool>,
    pub always_short_branch_names: Option<bool>,
    pub enable_comment_prompts: Option<bool>,
    pub one_transition_auto_move: Option<bool>,
    pub inclusive_filters: Option<bool>,
    pub jira_cfg: JiraClientConfig,
}

/// A violated rule on the credential fields.
#[derive(Debug, PartialEq, Eq, Clone, Copy)]
pub enum Invalid {
    /// Neither `api_token` nor `pat_token` is given.
    NoCredential,
    /// `api_token` is given without `user_login`.
    LoginRequired,
    /// `user_login` is given without `api_token`.
    ApiTokenRequired,
}

/// Why a tree does not decode into a [`RawConfig`].
#[derive(Debug, PartialEq)]
pub enum DecodeError {
    /// The document is not a table.
    NotATable,
    /// A key that the record does not have.
    UnknownField(String),
    /// A field that is missing or of the wrong kind.
    BadField(String),
}

/// Why no configuration could be resolved.
#[derive(Debug, PartialEq)]
pub enum ConfigError {
    /// Neither file could be read and parsed; holds the global file's cause.
    Load(String),
    /// The (merged) document does not decode.
    Decode(DecodeError),
    /// The decoded record breaks a rule on credentials.
    Invalid(Invalid),
}

impl Invalid {
    /// A human-readable account of the rule.
    pub fn message(&self) -> (r: String)
        ensures
            r@ == match *self {
                Invalid::NoCredential => "Neither api_token nor pat_token specified"@,
                Invalid::LoginRequired => "'user_login' missing, required with api_token"@,
                Invalid::ApiTokenRequired => "'api_token' missing, required with user_login"@,
            },
    {
        match self {
            Invalid::NoCredential => "Neither api_token nor pat_token specified".to_owned(),
            Invalid::LoginRequired => "'user_login' missing, required with api_token".to_owned(),
            Invalid::ApiTokenRequired => "'api_token' missing, required with user_login".to_owned(),
        }
    }
}

/// The rule that `raw` breaks, if any.
pub open spec fn credential_error(raw: RawConfigV) -> Option<Invalid> {
    if raw.api_token is Some && raw.user_login is None {
        Some(Invalid::LoginRequired)
    } else if raw.api_token is None && raw.user_login is Some {
        Some(Invalid::ApiTokenRequired)
    } else if raw.pat_token is None && raw.api_token is None {
        Some(Invalid::NoCredential)
    } else {
        None
    }
}

/// Checks the credential fields: login and api token come together, and a
/// token is given.
pub fn validate(raw: &RawConfig) -> (r: Result<(), Invalid>)
    ensures
        r == match credential_error(raw@) {
            Some(e) => Err(e),
            None => Ok::<(), Invalid>(()),
        },
{
    if raw.api_token.is_some() && raw.user_login.is_none() {
        Err(Invalid::LoginRequired)
    } else if raw.api_token.is_none() && raw.user_login.is_some() {
        Err(Invalid::ApiTokenRequired)
    } else if raw.pat_token.is_none() && raw.api_token.is_none() {
        Err(Invalid::NoCredential)
    } else {
        Ok(())
    }
}

pub open spec fn http_prefix() -> Seq<char> {
    seq!['h', 't', 't', 'p']
}

pub open spec fn https_scheme() -> Seq<char> {
    seq!['h', 't', 't', 'p', 's', ':', '/', '/']
}

pub open spec fn starts_with_http(s: Seq<char>) -> bool {
    s.len() >= 4 && s.subrange(0, 4) == http_prefix()
}

pub open spec fn ends_with_slash(s: Seq<char>) -> bool {
    s.len() > 0 && s.last() == '/'
}

/// The canonical form of a tracker URL: `https://` in front unless it starts
/// with `http`, and one trailing `/` taken off.
pub open spec fn normalized_url(s: Seq<char>) -> Seq<char> {
    let t = if starts_with_http(s) {
        s
    } else {
        https_scheme() + s
    };
    if ends_with_slash(t) {
        t.drop_last()
    } else {
        t
    }
}

/// Puts a tracker URL in canonical form.
pub fn normalize_url(url: &String) -> (r: String)
    ensures
        r@ == normalized_url(url@),
{
    let s = url.as_str();
    let n = s.unicode_len();
    let has_http = n >= 4 && s.get_char(0) == 'h' && s.get_char(1) == 't' && s.get_char(2) == 't'
        && s.get_char(3) == 'p';
    proof {
        if n >= 4 {
            if has_http {
                assert(s@.subrange(0, 4) =~= http_prefix());
            } else {
                assert(s@.subrange(0, 4)[0] == s@[0]);
            }
        }
    }
    let t = if has_http {
        url.clone()
    } else {
        let scheme = "https://".to_owned();
        proof {
            reveal_strlit("https://");
            assert(scheme@ =~= https_scheme());
        }
        scheme.concat(s)
    };
    let m = t.as_str().unicode_len();
    if m > 0 && t.as_str().get_char(m - 1) == '/' {
        let cut = t.as_str().substring_char(0, m - 1);
        let r = cut.to_owned();
        proof {
            assert(r@ =~= t@.drop_last());
        }
        r
    } else {
        t
    }
}

/// The entries of a table; nothing for any other value.
pub open spec fn entries_of(t: TreeV) -> Seq<(Seq<char>, TreeV)> {
    match t {
        TreeV::Table(e) => e,
        _ => Seq::empty(),
    }
}

/// The keys that a configuration file may hold.
pub open spec fn known_key(k: Seq<char>) -> bool {
    ||| k == "jira_url"@
    ||| k == "issue_query"@
    ||| k == "retry_query"@
    ||| k == "user_login"@
    ||| k == "api_token"@
    ||| k == "pat_token"@
    ||| k == "always_confirm_date"@
    ||| k == "always_short_branch_names"@
    ||| k == "max_query_results"@
    ||| k == "enable_comment_prompts"@
    ||| k == "one_transition_auto_move"@
    ||| k == "inclusive_filters"@
    ||| k == "timeout"@
}

pub open spec fn req_str_ok(e: Seq<(Seq<char>, TreeV)>, k: Seq<char>) -> bool {
    table_get(e, k) matches Some(TreeV::Str(_))
}

pub open spec fn opt_str_ok(e: Seq<(Seq<char>, TreeV)>, k: Seq<char>) -> bool {
    match table_get(e, k) {
        None => true,
        Some(TreeV::Str(_)) => true,
        _ => false,
    }
}

pub open spec fn opt_bool_ok(e: Seq<(Seq<char>, TreeV)>, k: Seq<char>) -> bool {
    match table_get(e, k) {
        None => true,
        Some(TreeV::Bool(_)) => true,
        _ => false,
    }
}

pub open spec fn opt_int_ok(e: Seq<(Seq<char>, TreeV)>, k: Seq<char>, max: int) -> bool {
    match table_get(e, k) {
        None => true,
        Some(TreeV::Int(i)) => 0 <= i <= max,
        _ => false,
    }
}

pub open spec fn str_at(e: Seq<(Seq<char>, TreeV)>, k: Seq<char>) -> Seq<char> {
    match table_get(e, k) {
        Some(TreeV::Str(s)) => s,
        _ => Seq::empty(),
    }
}

pub open spec fn opt_str_at(e: Seq<(Seq<char>, TreeV)>, k: Seq<char>) -> Option<Seq<char>> {
    match table_get(e, k) {
        Some(TreeV::Str(s)) => Some(s),
        _ => None,
    }
}

pub open spec fn opt_bool_at(e: Seq<(Seq<char>, TreeV)>, k: Seq<char>) -> Option<bool> {
    match table_get(e, k) {
        Some(TreeV::Bool(b)) => Some(b),
        _ => None,
    }
}

pub open spec fn opt_int_at(e: Seq<(Seq<char>, TreeV)>, k: Seq<char>) -> Option<int> {
    match table_get(e, k) {
        Some(TreeV::Int(i)) => Some(i),
        _ => None,
    }
}

/// Every field of the record has a value of its kind (the three queries are
/// required).
pub open spec fn fields_ok(e: Seq<(Seq<char>, TreeV)>) -> bool {
    &&& req_str_ok(e, "jira_url"@)
    &&& req_str_ok(e, "issue_query"@)
    &&& req_str_ok(e, "retry_query"@)
    &&& opt_str_ok(e, "user_login"@)
    &&& opt_str_ok(e, "api_token"@)
    &&& opt_str_ok(e, "pat_token"@)
    &&& opt_bool_ok(e, "always_confirm_date"@)
    &&& opt_bool_ok(e, "always_short_branch_names"@)
    &&& opt_int_ok(e, "max_query_results"@, u32::MAX as int)
    &&& opt_bool_ok(e, "enable_comment_prompts"@)
    &&& opt_bool_ok(e, "one_transition_auto_move"@)
    &&& opt_bool_ok(e, "inclusive_filters"@)
    &&& opt_int_ok(e, "timeout"@, u64::MAX as int)
}

/// `k` is the key at position `j`, the first key that the record does not have.
pub open spec fn first_unknown_key(e: Seq<(Seq<char>, TreeV)>, j: int, k: Seq<char>) -> bool {
    &&& 0 <= j < e.len()
    &&& e[j].0 == k
    &&& !known_key(k)
    &&& forall|i: int| 0 <= i < j ==> known_key(#[trigger] e[i].0)
}

/// `k` is the first key of the table that the record does not have.
pub open spec fn is_first_unknown_key(e: Seq<(Seq<char>, TreeV)>, k: Seq<char>) -> bool {
    exists|j: int| first_unknown_key(e, j, k)
}

/// The first field, in record order, whose value is missing or of the wrong
/// kind.
pub open spec fn first_bad_field(e: Seq<(Seq<char>, TreeV)>) -> Seq<char> {
    if !req_str_ok(e, "jira_url"@) {
        "jira_url"@
    } else if !req_str_ok(e, "issue_query"@) {
        "issue_query"@
    } else if !req_str_ok(e, "retry_query"@) {
        "retry_query"@
    } else if !opt_str_ok(e, "user_login"@) {
        "user_login"@
    } else if !opt_str_ok(e, "api_token"@) {
        "api_token"@
    } else if !opt_str_ok(e, "pat_token"@) {
        "pat_token"@
    } else if !opt_bool_ok(e, "always_confirm_date"@) {
        "always_confirm_date"@
    } else if !opt_bool_ok(e, "always_short_branch_names"@) {
        "always_short_branch_names"@
    } else if !opt_int_ok(e, "max_query_results"@, u32::MAX as int) {
        "max_query_results"@
    } else if !opt_bool_ok(e, "enable_comment_prompts"@) {
        "enable_comment_prompts"@
    } else if !opt_bool_ok(e, "one_transition_auto_move"@) {
        "one_transition_auto_move"@
    } else if !opt_bool_ok(e, "inclusive_filters"@) {
        "inclusive_filters"@
    } else if !opt_int_ok(e, "timeout"@, u64::MAX as int) {
        "timeout"@
    } else {
        Seq::empty()
    }
}

pub open spec fn all_keys_known(e: Seq<(Seq<char>, TreeV)>) -> bool {
    forall|j: int| 0 <= j < e.len() ==> known_key(#[trigger] e[j].0)
}

/// `t` decodes into a record: a table of known keys whose fields are of
/// their kinds.
pub open spec fn decodes(t: TreeV) -> bool {
    &&& t is Table
    &&& all_keys_known(entries_of(t))
    &&& fields_ok(entries_of(t))
}

/// The record that a table decodes into.
pub open spec fn raw_of(t: TreeV) -> RawConfigV {
    let e = entries_of(t);
    RawConfigV {
        jira_url: str_at(e, "jira_url"@),
        issue_query: str_at(e, "issue_query"@),
        retry_query: str_at(e, "retry_query"@),
        user_login: opt_str_at(e, "user_login"@),
        api_token: opt_str_at(e, "api_token"@),
        pat_token: opt_str_at(e, "pat_token"@),
        always_confirm_date: opt_bool_at(e, "always_confirm_date"@),
        always_short_branch_names: opt_bool_at(e, "always_short_branch_names"@),
        max_query_results: match opt_int_at(e, "max_query_results"@) {
            Some(i) => Some(i as u32),
            None => None,
        },
        enable_comment_prompts: opt_bool_at(e, "enable_comment_prompts"@),
        one_transition_auto_move: opt_bool_at(e, "one_transition_auto_move"@),
        inclusive_filters: opt_bool_at(e, "inclusive_filters"@),
        timeout: match opt_int_at(e, "timeout"@) {
            Some(i) => Some(i as u64),
            None => None,
        },
    }
}

fn is_known_key(k: &String) -> (r: bool)
    ensures
        r == known_key(k@),
{
    let s = k.as_str();
    s.to_owned() == "jira_url".to_owned() || s.to_owned() == "issue_query".to_owned()
        || s.to_owned() == "retry_query".to_owned() || s.to_owned() == "user_login".to_owned()
        || s.to_owned() == "api_token".to_owned() || s.to_owned() == "pat_token".to_owned()
        || s.to_owned() == "always_confirm_date".to_owned()
        || s.to_owned() == "always_short_branch_names".to_owned()
        || s.to_owned() == "max_query_results".to_owned()
        || s.to_owned() == "enable_comment_prompts".to_owned()
        || s.to_owned() == "one_transition_auto_move".to_owned()
        || s.to_owned() == "inclusive_filters".to_owned() || s.to_owned() == "timeout".to_owned()
}

fn lookup<'a>(entries: &'a Vec<(String, Tree)>, k: &str) -> (r: Option<&'a Tree>)
    ensures
        match table_get(entries_view(entries@), k@) {
            Some(v) => r is Some && r->0@ == v,
            None => r is None,
        },
{
    let key = k.to_owned();
    match find_key(entries, &key) {
        Some(i) => Some(&entries[i].1),
        None => None,
    }
}

fn req_str_field(entries: &Vec<(String, Tree)>, k: &str) -> (r: Option<String>)
    ensures
        r is Some <==> req_str_ok(entries_view(entries@), k@),
        r is Some ==> r->0@ == str_at(entries_view(entries@), k@),
{
    match lookup(entries, k) {
        Some(Tree::Str(s)) => Some(s.clone()),
        _ => None,
    }
}

fn opt_str_field(entries: &Vec<(String, Tree)>, k: &str) -> (r: Option<Option<String>>)
    ensures
        r is Some <==> opt_str_ok(entries_view(entries@), k@),
        r is Some ==> opt_view(r->0) == opt_str_at(entries_view(entries@), k@),
{
    match lookup(entries, k) {
        None => Some(None),
        Some(Tree::Str(s)) => Some(Some(s.clone())),
        _ => None,
    }
}

fn opt_bool_field(entries: &Vec<(String, Tree)>, k: &str) -> (r: Option<Option<bool>>)
    ensures
        r is Some <==> opt_bool_ok(entries_view(entries@), k@),
        r is Some ==> r->0 == opt_bool_at(entries_view(entries@), k@),
{
    match lookup(entries, k) {
        None => Some(None),
        Some(Tree::Bool(b)) => Some(Some(*b)),
        _ => None,
    }
}

fn opt_u32_field(entries: &Vec<(String, Tree)>, k: &str) -> (r: Option<Option<u32>>)
    ensures
        r is Some <==> opt_int_ok(entries_view(entries@), k@, u32::MAX as int),
        r is Some ==> r->0 == match opt_int_at(entries_view(entries@), k@) {
            Some(i) => Some(i as u32),
            None => None,
        },
{
    match lookup(entries, k) {
        None => Some(None),
        Some(Tree::Int(i)) => if 0 <= *i && *i <= u32::MAX as i64 {
            Some(Some(*i as u32))
        } else {
            None
        },
        _ => None,
    }
}

fn opt_u64_field(entries: &Vec<(String, Tree)>, k: &str) -> (r: Option<Option<u64>>)
    ensures
        r is Some <==> opt_int_ok(entries_view(entries@), k@, u64::MAX as int),
        r is Some ==> r->0 == match opt_int_at(entries_view(entries@), k@) {
            Some(i) => Some(i as u64),
            None => None,
        },
{
    match lookup(entries, k) {
        None => Some(None),
        Some(Tree::Int(i)) => if 0 <= *i {
            Some(Some(*i as u64))
        } else {
            None
        },
        _ => None,
    }
}

impl RawConfig {
    /// Decodes a document into the record, refusing any key that the record
    /// does not have.
    pub fn decode(tree: &Tree) -> (r: Result<RawConfig, DecodeError>)
        ensures
            r is Ok <==> decodes(tree@),
            r is Ok ==> r->Ok_0@ == raw_of(tree@),
            r matches Err(DecodeError::NotATable) <==> !(tree@ is Table),
            r matches Err(DecodeError::UnknownField(k)) ==> {
                &&& tree@ is Table
                &&& is_first_unknown_key(entries_of(tree@), k@)
            },
            r matches Err(DecodeError::BadField(k)) ==> {
                &&& tree@ is Table
                &&& all_keys_known(entries_of(tree@))
                &&& !fields_ok(entries_of(tree@))
                &&& k@ == first_bad_field(entries_of(tree@))
            },
    {
        let entries = match tree {
            Tree::Table(entries) => entries,
            _ => return Err(DecodeError::NotATable),
        };
        let ghost e = entries_view(entries@);
        proof {
            lemma_table_view(*entries);
        }
        let mut i: usize = 0;
        while i < entries.len()
            invariant
                i <= entries@.len(),
                e == entries_view(entries@),
                tree@ == TreeV::Table(e),
                forall|j: int| 0 <= j < i ==> known_key(#[trigger] e[j].0),
            decreases entries.len() - i,
        {
            if !is_known_key(&entries[i].0) {
                proof {
                    assert(e[i as int].0 == entries@[i as int].0@);
                    assert(!known_key(e[i as int].0));
                    assert(entries_of(tree@) == e);
                    assert(first_unknown_key(e, i as int, entries@[i as int].0@));
                }
                let k = entries[i].0.clone();
                proof {
                    assert(first_unknown_key(entries_of(tree@), i as int, k@));
                    assert(is_first_unknown_key(entries_of(tree@), k@));
                }
                return Err(DecodeError::UnknownField(k));
            }
            i = i + 1;
        }
        let bad = |k: &str| -> (r: Result<RawConfig, DecodeError>)
            ensures
                r matches Err(DecodeError::BadField(m)) && m@ == k@,
            { Err(DecodeError::BadField(k.to_owned())) };
        let jira_url = match req_str_field(entries, "jira_url") {
            Some(v) => v,
            None => return bad("jira_url"),
        };
        let issue_query = match req_str_field(entries, "issue_query") {
            Some(v) => v,
            None => return bad("issue_query"),
        };
        let retry_query = match req_str_field(entries, "retry_query") {
            Some(v) => v,
            None => return bad("retry_query"),
        };
        let user_login = match opt_str_field(entries, "user_login") {
            Some(v) => v,
            None => return bad("user_login"),
        };
        let api_token = match opt_str_field(entries, "api_token") {
            Some(v) => v,
            None => return bad("api_token"),
        };
        let pat_token = match opt_str_field(entries, "pat_token") {
            Some(v) => v,
            None => return bad("pat_token"),
        };
        let always_confirm_date = match opt_bool_field(entries, "always_confirm_date") {
            Some(v) => v,
            None => return bad("always_confirm_date"),
        };
        let always_short_branch_names = match opt_bool_field(
            entries,
            "always_short_branch_names",
        ) {
            Some(v) => v,
            None => return bad("always_short_branch_names"),
        };
        let max_query_results = match opt_u32_field(entries, "max_query_results") {
            Some(v) => v,
            None => return bad("max_query_results"),
        };
        let enable_comment_prompts = match opt_bool_field(entries, "enable_comment_prompts") {
            Some(v) => v,
            None => return bad("enable_comment_prompts"),
        };
        let one_transition_auto_move = match opt_bool_field(entries, "one_transition_auto_move") {
            Some(v) => v,
            None => return bad("one_transition_auto_move"),
        };
        let inclusive_filters = match opt_bool_field(entries, "inclusive_filters") {
            Some(v) => v,
            None => return bad("inclusive_filters"),
        };
        let timeout = match opt_u64_field(entries, "timeout") {
            Some(v) => v,
            None => return bad("timeout"),
        };
        Ok(RawConfig {
            jira_url,
            issue_query,
            retry_query,
            user_login,
            api_token,
            pat_token,
            always_confirm_date,
            always_short_branch_names,
            max_query_results,
            enable_comment_prompts,
            one_transition_auto_move,
            inclusive_filters,
            timeout,
        })
    }
}

/// `c` carries the credential that `raw` gives: the personal access token
/// first, then api token with login, else anonymous.
pub open spec fn credential_of(raw: RawConfigV, c: Credential) -> bool {
    match raw.pat_token {
        Some(p) => c matches Credential::PersonalAccessToken(t) && t@ == p,
        None => match raw.api_token {
            Some(a) => c matches Credential::ApiToken { login, token } && token@ == a && Some(
                login@,
            ) == raw.user_login,
            None => c is Anonymous,
        },
    }
}

/// `c` is the configuration built from `raw`, with `url` as the tracker URL
/// and the defaults of 50 results and 10 seconds.
pub open spec fn built_from(raw: RawConfigV, url: Seq<char>, c: Config) -> bool {
    &&& c.issue_query@ == raw.issue_query
    &&& c.retry_query@ == raw.retry_query
    &&& c.always_confirm_date == raw.always_confirm_date
    &&& c.always_short_branch_names == raw.always_short_branch_names
    &&& c.enable_comment_prompts == raw.enable_comment_prompts
    &&& c.one_transition_auto_move == raw.one_transition_auto_move
    &&& c.inclusive_filters == raw.inclusive_filters
    &&& c.jira_cfg.url@ == url
    &&& c.jira_cfg.max_query_results == match raw.max_query_results {
        Some(m) => m,
        None => 50u32,
    }
    &&& c.jira_cfg.timeout == match raw.timeout {
        Some(t) => t,
        None => 10u64,
    }
    &&& credential_of(raw, c.jira_cfg.credential)
}

/// The outcome of reading and parsing one file, as a model.
pub open spec fn layer_view(l: Result<Tree, String>) -> Result<TreeV, Seq<char>> {
    match l {
        Ok(t) => Ok(t@),
        Err(e) => Err(e@),
    }
}

/// The document that two layers give: both merged at depth 3 with the
/// workspace winning, or the one that parsed; when neither did, the global
/// layer's cause.
pub open spec fn layered(
    global: Result<TreeV, Seq<char>>,
    local: Result<TreeV, Seq<char>>,
) -> Result<TreeV, Seq<char>> {
    match (global, local) {
        (Ok(g), Ok(l)) => Ok(merge_spec(g, l, 3)),
        (Ok(g), Err(_)) => Ok(g),
        (Err(_), Ok(l)) => Ok(l),
        (Err(e), Err(_)) => Err(e),
    }
}

/// The configuration that a document resolves to, or why it does not.
pub open spec fn resolves(t: TreeV, r: Result<Config, ConfigError>) -> bool {
    if !decodes(t) {
        r matches Err(ConfigError::Decode(_))
    } else {
        match credential_error(raw_of(t)) {
            Some(e) => r == Err::<Config, ConfigError>(ConfigError::Invalid(e)),
            None => r is Ok && built_from(raw_of(t), normalized_url(raw_of(t).jira_url), r->Ok_0),
        }
    }
}

impl Config {
    /// Builds the configuration from a record, filling in the defaults.
    pub fn from_raw(cfg: RawConfig) -> (r: Config)
        requires
            cfg@.pat_token is None && cfg@.api_token is Some ==> cfg@.user_login is Some,
        ensures
            built_from(cfg@, cfg@.jira_url, r),
    {
        let credential = match cfg.pat_token {
            Some(pat) => Credential::PersonalAccessToken(pat),
            None => match cfg.api_token {
                Some(api_token) => Credential::ApiToken {
                    login: cfg.user_login.unwrap(),
                    token: api_token,
                },
                None => Credential::Anonymous,
            },
        };
        Config {
            issue_query: cfg.issue_query,
            retry_query: cfg.retry_query,
            always_confirm_date: cfg.always_confirm_date,
            always_short_branch_names: cfg.always_short_branch_names,
            enable_comment_prompts: cfg.enable_comment_prompts,
            one_transition_auto_move: cfg.one_transition_auto_move,
            inclusive_filters: cfg.inclusive_filters,
            jira_cfg: JiraClientConfig {
                credential,
                max_query_results: cfg.max_query_results.unwrap_or(50u32),
                url: cfg.jira_url,
                timeout: cfg.timeout.unwrap_or(10u64),
            },
        }
    }

    /// Validates a record, puts its URL in canonical form and builds the
    /// configuration.
    pub fn from_record(cfg: RawConfig) -> (r: Result<Config, ConfigError>)
        ensures
            match credential_error(cfg@) {
                Some(e) => r == Err::<Config, ConfigError>(ConfigError::Invalid(e)),
                None => r is Ok && built_from(cfg@, normalized_url(cfg@.jira_url), r->Ok_0),
            },
    {
        match validate(&cfg) {
            Err(e) => return Err(ConfigError::Invalid(e)),
            Ok(()) => {},
        }
        let url = normalize_url(&cfg.jira_url);
        let mut cfg = cfg;
        cfg.jira_url = url;
        Ok(Config::from_raw(cfg))
    }

    /// Resolves the configuration from the two layers, each either a parsed
    /// document or the cause of its failure: the global one and the
    /// workspace one, which wins where both say something.
    pub fn load(global: Result<Tree, String>, local: Result<Tree, String>) -> (r: Result<
        Config,
        ConfigError,
    >)
        ensures
            match layered(layer_view(global), layer_view(local)) {
                Err(e) => r matches Err(ConfigError::Load(m)) && m@ == e,
                Ok(t) => resolves(t, r),
            },
    {
        let tree = match (global, local) {
            (Ok(g), Ok(l)) => merge_toml_values(g, l, 3),
            (Ok(g), Err(_)) => g,
            (Err(_), Ok(l)) => l,
            (Err(e), Err(_)) => return Err(ConfigError::Load(e)),
        };
        match RawConfig::decode(&tree) {
            Err(e) => Err(ConfigError::Decode(e)),
            Ok(raw) => Config::from_record(raw),
        }
    }
}

/// `name` appended to the path `base` as one more component.
pub open spec fn path_join(base: Seq<char>, name: Seq<char>) -> Seq<char> {
    if base.len() == 0 {
        name
    } else if ends_with_slash(base) {
        base + name
    } else {
        base + seq!['/'] + name
    }
}

fn join(base: &String, name: &str) -> (r: String)
    ensures
        r@ == path_join(base@, name@),
{
    let s = base.as_str();
    let n = s.unicode_len();
    if n == 0 {
        name.to_owned()
    } else if s.get_char(n - 1) == '/' {
        base.clone().concat(name)
    } else {
        let sep = "/".to_owned();
        proof {
            reveal_strlit("/");
        }
        base.clone().concat(sep.as_str()).concat(name)
    }
}

/// The application's directory under the platform's configuration directory.
pub fn config_dir(base: &String) -> (r: String)
    ensures
        r@ == path_join(base@, "jig"@),
{
    join(base, "jig")
}

/// The application's directory under the platform's cache directory.
pub fn cache_dir(base: &String) -> (r: String)
    ensures
        r@ == path_join(base@, "jig"@),
{
    join(base, "jig")
}

/// The global configuration file, under the platform's configuration
/// directory `base`.
pub fn config_file(base: &String) -> (r: String)
    ensures
        r@ == path_join(path_join(base@, "jig"@), "config.toml"@),
{
    let dir = config_dir(base);
    join(&dir, "config.toml")
}

/// The workspace configuration file in the workspace root `workspace`.
pub fn workspace_config_file(workspace: &String) -> (r: String)
    ensures
        r@ == path_join(workspace@, ".jig.toml"@),
{
    join(workspace, ".jig.toml")
}

/// A URL that starts with `http` and has no trailing `/` is left as it is.
pub proof fn lemma_normalize_keeps_canonical(s: Seq<char>)
    requires
        starts_with_http(s),
        !ends_with_slash(s),
    ensures
        normalized_url(s) == s,
{
}

/// Normalizing twice gives what normalizing once gives, for every URL whose
/// normal form does not itself end in `/` (one trailing `/` is taken off per
/// pass).
pub proof fn lemma_normalize_idempotent(s: Seq<char>)
    requires
        !ends_with_slash(normalized_url(s)),
    ensures
        normalized_url(normalized_url(s)) == normalized_url(s),
{
    let t = if starts_with_http(s) {
        s
    } else {
        https_scheme() + s
    };
    let n = normalized_url(s);
    if !starts_with_http(s) {
        assert((https_scheme() + s).subrange(0, 4) =~= http_prefix());
    }
    assert(t.subrange(0, 4) =~= http_prefix());
    if ends_with_slash(t) {
        if starts_with_http(s) {
            assert(t[3] == 'p');
        }
        assert(t.len() >= 5);
        assert(n.subrange(0, 4) =~= t.subrange(0, 4));
    }
    assert(starts_with_http(n));
}

/// When the global file failed and the workspace file parsed, the document
/// is the workspace one alone.
pub proof fn lemma_layer_fallback(global_cause: Seq<char>, local: TreeV)
    ensures
        layered(Err(global_cause), Ok(local)) == Ok::<TreeV, Seq<char>>(local),
{
}

/// A record that sets neither the result limit nor the timeout gets 50 and 10.
pub proof fn lemma_defaults(raw: RawConfigV, url: Seq<char>, c: Config)
    requires
        raw.max_query_results is None,
        raw.timeout is None,
        built_from(raw, url, c),
    ensures
        c.jira_cfg.max_query_results == 50,
        c.jira_cfg.timeout == 10,
{
}

} // verus!
