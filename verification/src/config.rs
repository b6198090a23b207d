//! The configuration of a run.

use vstd::prelude::*;
use crate::cli::ConnArgs;
use crate::secret::{bad_ref, parsed_ref, SecretRef};
use crate::tables::{is_word, word_char};
use crate::text::{quote, quoted, to_chars};

verus! {

/// What std says of a character beyond ASCII: whether it counts as white space.
pub uninterp spec fn unicode_space(c: char) -> bool;

/// Whether a character is white space.
pub open spec fn space(c: char) -> bool {
    if (c as u32) < 128 {
        9 <= c as u32 <= 13 || c == ' '
    } else {
        unicode_space(c)
    }
}

/// `char::is_whitespace` of std: in ASCII the tab, the line feed, the vertical tab, the form feed,
/// the carriage return and the space; beyond ASCII what Unicode says, which the name stands for.
#[verifier::external_body]
fn is_space(c: char) -> (r: bool)
    ensures
        r == if (c as u32) < 128 {
            9 <= c as u32 <= 13 || c == ' '
        } else {
            unicode_space(c)
        },
{
    c.is_whitespace()
}

/// Whether a text has nothing but white space.
pub open spec fn blank(s: Seq<char>) -> bool {
    forall|i: int| 0 <= i < s.len() ==> space(#[trigger] s[i])
}

/// Whether a text may name a dataset.
pub open spec fn dataset_name(s: Seq<char>) -> bool {
    forall|i: int| 0 <= i < s.len() ==> is_word(#[trigger] s[i])
}

fn is_blank(s: &str) -> (r: bool)
    ensures
        r == blank(s@),
{
    let cs = to_chars(s);
    let mut i: usize = 0;
    while i < cs.len()
        invariant
            cs@ == s@,
            i <= cs@.len(),
            forall|j: int| 0 <= j < i ==> space(#[trigger] s@[j]),
        decreases cs@.len() - i,
    {
        if !is_space(cs[i]) {
            assert(!space(s@[i as int]));
            return false;
        }
        i += 1;
    }
    true
}

fn is_dataset_name(s: &str) -> (r: bool)
    ensures
        r == dataset_name(s@),
{
    let cs = to_chars(s);
    let mut i: usize = 0;
    while i < cs.len()
        invariant
            cs@ == s@,
            i <= cs@.len(),
            forall|j: int| 0 <= j < i ==> is_word(#[trigger] s@[j]),
        decreases cs@.len() - i,
    {
        if !word_char(cs[i]) {
            assert(!is_word(s@[i as int]));
            return false;
        }
        i += 1;
    }
    true
}

/// A configuration that holds together: at least one of the two sources of the key is there.
#[derive(Debug)]
pub struct Config {
    pub workspace: String,
    pub project: String,
    pub dataset: String,
    pub location: String,
    pub secret: Option<SecretRef>,
    pub api_key_override: Option<String>,
}

/// What is wrong with the arguments, the first thing only.
pub open spec fn config_error(conn: ConnArgs, key_given: bool) -> Option<Seq<char>> {
    if blank(conn.workspace@) {
        Some("--workspace is required"@)
    } else if blank(conn.project@) {
        Some("--project is required"@)
    } else if !dataset_name(conn.dataset@) {
        Some(
            "dataset "@ + quoted(conn.dataset@)
                + " is invalid: BigQuery dataset IDs allow letters, digits, underscore only"@,
        )
    } else {
        match conn.secret {
            Some(s) => if parsed_ref(s@) is None {
                Some("config: "@ + bad_ref(s@))
            } else {
                None
            },
            None => if key_given {
                None
            } else {
                Some(
                    "either --secret (Secret Manager ref) or CLARIFY_API_KEY env must be set"@,
                )
            },
        }
    }
}

/// Whether a configuration is the one that the arguments say.
pub open spec fn configured(cfg: Config, conn: ConnArgs, key: Option<String>) -> bool {
    &&& cfg.workspace@ == conn.workspace@
    &&& cfg.project@ == conn.project@
    &&& cfg.dataset@ == conn.dataset@
    &&& cfg.location@ == conn.location@
    &&& match conn.secret {
        Some(s) => cfg.secret matches Some(x) && parsed_ref(s@) == Some(x@),
        None => cfg.secret is None,
    }
    &&& cfg.api_key_override == key
}

impl Config {
    /// Resolves the arguments and the key that the environment may hold.
    pub fn resolve(conn: &ConnArgs, api_key_override: Option<String>) -> (r: Result<Config, String>)
        ensures
            match r {
                Ok(cfg) => config_error(*conn, api_key_override is Some) is None && configured(
                    cfg,
                    *conn,
                    api_key_override,
                ),
                Err(e) => config_error(*conn, api_key_override is Some) == Some(e@),
            },
    {
        if is_blank(&conn.workspace) {
            return Err("--workspace is required".to_owned());
        }
        if is_blank(&conn.project) {
            return Err("--project is required".to_owned());
        }
        if !is_dataset_name(&conn.dataset) {
            let mut e = "dataset ".to_owned();
            e.append(&quote(&conn.dataset));
            e.append(" is invalid: BigQuery dataset IDs allow letters, digits, underscore only");
            return Err(e);
        }
        let secret = match &conn.secret {
            Some(s) => match SecretRef::parse(s) {
                Ok(x) => Some(x),
                Err(e) => {
                    return Err(e.message());
                },
            },
            None => {
                if api_key_override.is_none() {
                    return Err(
                        "either --secret (Secret Manager ref) or CLARIFY_API_KEY env must be set".to_owned(),
                    );
                }
                None
            },
        };
        Ok(
            Config {
                workspace: conn.workspace.clone(),
                project: conn.project.clone(),
                dataset: conn.dataset.clone(),
                location: conn.location.clone(),
                secret,
                api_key_override,
            },
        )
    }
}

/// Where the key of the API comes from.
pub enum KeySource<'a> {
    /// It is given.
    Given(&'a String),
    /// It is a secret.
    Secret(&'a SecretRef),
}

impl Config {
    /// Where the key comes from: one that is given wins over the secret.
    pub fn key_source<'a>(&'a self) -> (r: KeySource<'a>)
        requires
            self.secret is Some || self.api_key_override is Some,
        ensures
            match r {
                KeySource::Given(key) => self.api_key_override == Some(*key),
                KeySource::Secret(secret) => self.api_key_override is None && self.secret == Some(
                    *secret,
                ),
            },
    {
        match &self.api_key_override {
            Some(key) => KeySource::Given(key),
            None => match &self.secret {
                Some(secret) => KeySource::Secret(secret),
                None => {
                    assert(false);
                    KeySource::Given(&self.workspace)
                },
            },
        }
    }
}

/// Every configuration that was resolved has a source for the key.
pub proof fn law_configured_has_a_key_source(cfg: Config, conn: ConnArgs, key: Option<String>)
    requires
        config_error(conn, key is Some) is None,
        configured(cfg, conn, key),
    ensures
        cfg.secret is Some || cfg.api_key_override is Some,
{
}

/// Arguments make a configuration exactly where the workspace and the project have something in
/// them besides white space, the dataset has nothing but letters, digits and underscores, and the
/// key comes from a secret that can be referred to, or, where no secret is named, is given.
pub proof fn law_which_arguments_are_accepted(conn: ConnArgs, key_given: bool)
    ensures
        config_error(conn, key_given) is None <==> (exists|i: int|
            0 <= i < conn.workspace@.len() && !space(#[trigger] conn.workspace@[i])) && (exists|
            i: int,
        | 0 <= i < conn.project@.len() && !space(#[trigger] conn.project@[i])) && (forall|i: int|
            0 <= i < conn.dataset@.len() ==> ('a' <= #[trigger] conn.dataset@[i] <= 'z' || 'A'
                <= conn.dataset@[i] <= 'Z' || '0' <= conn.dataset@[i] <= '9' || conn.dataset@[i]
                == '_')) && match conn.secret {
            Some(s) => parsed_ref(s@) is Some,
            None => key_given,
        },
{
    if blank(conn.workspace@) {
    } else {
        let i = choose|i: int|
            0 <= i < conn.workspace@.len() && !space(#[trigger] conn.workspace@[i]);
    }
    if blank(conn.project@) {
    } else {
        let i = choose|i: int|
            0 <= i < conn.project@.len() && !space(#[trigger] conn.project@[i]);
    }
    if dataset_name(conn.dataset@) {
        assert forall|i: int| 0 <= i < conn.dataset@.len() implies ('a'
            <= #[trigger] conn.dataset@[i] <= 'z' || 'A' <= conn.dataset@[i] <= 'Z' || '0'
            <= conn.dataset@[i] <= '9' || conn.dataset@[i] == '_') by {
            assert(is_word(conn.dataset@[i]));
        }
    } else {
        let i = choose|i: int| 0 <= i < conn.dataset@.len() && !is_word(#[trigger] conn.dataset@[i]);
        assert(!is_word(conn.dataset@[i]));
    }
}

/// Of ASCII, the space and the five characters from the tab to the carriage return are white space,
/// and no others are.
pub proof fn law_what_is_white_space(c: char)
    requires
        (c as u32) < 128,
    ensures
        space(c) <==> c == ' ' || c == '\t' || c == '\n' || c == '\r' || c as u32 == 11 || c as u32
            == 12,
{
}

/// What is said of arguments that are refused names the argument, the first one of these that is
/// wrong.
pub proof fn law_refusal_names_the_argument(conn: ConnArgs, key_given: bool)
    ensures
        blank(conn.workspace@) ==> config_error(conn, key_given) == Some(
            "--workspace is required"@,
        ),
        !blank(conn.workspace@) && blank(conn.project@) ==> config_error(conn, key_given) == Some(
            "--project is required"@,
        ),
        !blank(conn.workspace@) && !blank(conn.project@) && dataset_name(conn.dataset@)
            && conn.secret is None && !key_given ==> config_error(conn, key_given) == Some(
            "either --secret (Secret Manager ref) or CLARIFY_API_KEY env must be set"@,
        ),
{
}

/// A configuration holds what the arguments say, each in its place.
pub proof fn law_configuration_is_what_was_asked_for(
    cfg: Config,
    conn: ConnArgs,
    key: Option<String>,
)
    requires
        configured(cfg, conn, key),
    ensures
        cfg.workspace@ == conn.workspace@,
        cfg.project@ == conn.project@,
        cfg.dataset@ == conn.dataset@,
        cfg.location@ == conn.location@,
        cfg.api_key_override == key,
        conn.secret matches Some(s) ==> (cfg.secret matches Some(x) && parsed_ref(s@) == Some(x@)),
        conn.secret is None ==> cfg.secret is None,
{
}

} // verus!
