//! Identities created by `stellar keys generate` / `stellar keys add`, read so
//! that they can be imported as StarForge wallets.
//!
//! stellar-cli keeps each identity as `identity/<name>.toml` inside its
//! configuration directory. A project directory `.stellar/` wins over the
//! global one, as in stellar-cli's own lookup; legacy `soroban` directories
//! are searched last.
//!
//! Only identities that hold key material can be imported: `secret_key` or
//! `seed_phrase`. Public-key-only, keychain (`secure_store`) and Ledger
//! identities are refused with an explanation. Paths are plain text here; the
//! files themselves are read by the caller.
use vstd::prelude::*;
use crate::database::{join_path, path_join};
use crate::text::{
    chars_of, contains_seq, contains_str, join, join_spec, push_str, str_eq, string_of,
    string_views, to_owned_string, trim, trim_str,
};

verus! {

/// Key material read from a stellar-cli identity file.
#[derive(Debug)]
pub enum StellarCliKey {
    /// A raw `S...` secret key.
    SecretKey(String),
    /// A BIP39 phrase; stellar-cli derives account index 0 by default.
    SeedPhrase(String),
}

/// An identity located on disk.
#[derive(Debug)]
pub struct StellarCliIdentity {
    pub name: String,
    pub path: String,
    pub key: StellarCliKey,
}

/// A key as plain values: whether it is a secret key (else a seed phrase),
/// and its text.
pub open spec fn key_parts(k: StellarCliKey) -> (bool, Seq<char>) {
    match k {
        StellarCliKey::SecretKey(s) => (true, s@),
        StellarCliKey::SeedPhrase(s) => (false, s@),
    }
}

// ── Where identities live ─────────────────────────────────────────────────────

/// `s` with each run of equal neighbours reduced to its first entry
/// (`Vec::dedup`).
pub open spec fn dedup_adjacent(s: Seq<Seq<char>>) -> Seq<Seq<char>>
    decreases s.len(),
{
    if s.len() <= 1 {
        s
    } else {
        let d = dedup_adjacent(s.drop_last());
        if d.last() == s.last() {
            d
        } else {
            d.push(s.last())
        }
    }
}

proof fn lemma_dedup_last(s: Seq<Seq<char>>)
    requires
        s.len() >= 1,
    ensures
        dedup_adjacent(s).len() >= 1,
        dedup_adjacent(s).last() == s.last(),
    decreases s.len(),
{
    if s.len() > 1 {
        lemma_dedup_last(s.drop_last());
    }
}

/// The one path `base` joined with `name`, when there is a base.
pub open spec fn joined_if(base: Option<Seq<char>>, name: Seq<char>) -> Seq<Seq<char>> {
    match base {
        Some(b) => seq![join_path(b, name)],
        None => Seq::empty(),
    }
}

/// `<home>/.config/<name>`, when there is a home directory.
pub open spec fn home_config(home: Option<Seq<char>>, name: Seq<char>) -> Seq<Seq<char>> {
    match home {
        Some(h) => seq![join_path(join_path(h, ".config"@), name)],
        None => Seq::empty(),
    }
}

/// The directories searched for `identity/<name>.toml`, highest precedence
/// first: the project's `.stellar`, then `STELLAR_CONFIG_HOME` or else the XDG
/// and home configuration directories, then the legacy `soroban` ones; equal
/// neighbours (as text) appear once.
pub open spec fn search_dirs_spec(
    cwd: Option<Seq<char>>,
    home: Option<Seq<char>>,
    stellar_config_home: Option<Seq<char>>,
    xdg_config_home: Option<Seq<char>>,
) -> Seq<Seq<char>> {
    let global = match stellar_config_home {
        Some(d) => seq![d],
        None => joined_if(xdg_config_home, "stellar"@) + home_config(home, "stellar"@),
    };
    dedup_adjacent(
        joined_if(cwd, ".stellar"@) + global + joined_if(cwd, ".soroban"@) + home_config(
            home,
            "soroban"@,
        ),
    )
}

/// The characters of an optional `str`.
pub open spec fn opt_chars(o: Option<&str>) -> Option<Seq<char>> {
    match o {
        Some(s) => Some(s@),
        None => None,
    }
}

fn dedup_strings(v: Vec<String>) -> (r: Vec<String>)
    ensures
        string_views(r@) == dedup_adjacent(string_views(v@)),
{
    let mut out: Vec<String> = Vec::new();
    let mut i: usize = 0;
    while i < v.len()
        invariant
            i <= v@.len(),
            string_views(out@) == dedup_adjacent(string_views(v@).take(i as int)),
        decreases v@.len() - i,
    {
        let ghost before = string_views(v@).take(i as int);
        let ghost now = string_views(v@).take(i + 1);
        proof {
            assert(now.drop_last() =~= before);
            assert(now.last() == v@[i as int]@);
            if i > 0 {
                lemma_dedup_last(before);
            }
        }
        let keep = out.len() == 0 || !str_eq(out[out.len() - 1].as_str(), v[i].as_str());
        if keep {
            let s = v[i].clone();
            proof {
                crate::text::lemma_string_views_push(out@, s);
            }
            out.push(s);
        }
        proof {
            if i == 0 {
                assert(before.len() == 0);
                assert(string_views(out@) =~= now);
            }
        }
        i += 1;
    }
    assert(string_views(v@).take(v@.len() as int) =~= string_views(v@));
    out
}

fn push_joined(out: &mut Vec<String>, base: Option<&str>, name: &str)
    ensures
        string_views(final(out)@) == string_views(old(out)@) + joined_if(opt_chars(base), name@),
{
    match base {
        Some(b) => {
            let p = path_join(b, name);
            proof {
                crate::text::lemma_string_views_push(out@, p);
            }
            out.push(p);
        },
        None => {
            assert(string_views(out@) =~= string_views(out@) + Seq::<Seq<char>>::empty());
        },
    }
}

fn push_home_config(out: &mut Vec<String>, home: Option<&str>, name: &str)
    ensures
        string_views(final(out)@) == string_views(old(out)@) + home_config(opt_chars(home), name@),
{
    match home {
        Some(h) => {
            let config = path_join(h, ".config");
            let p = path_join(config.as_str(), name);
            proof {
                crate::text::lemma_string_views_push(out@, p);
            }
            out.push(p);
        },
        None => {
            assert(string_views(out@) =~= string_views(out@) + Seq::<Seq<char>>::empty());
        },
    }
}

/// Directories searched for `identity/<name>.toml`, highest precedence first,
/// from the working directory, the home directory and the values of
/// `STELLAR_CONFIG_HOME` (which replaces the global directory entirely) and
/// `XDG_CONFIG_HOME`.
pub fn search_dirs(
    cwd: Option<&str>,
    home: Option<&str>,
    stellar_config_home: Option<&str>,
    xdg_config_home: Option<&str>,
) -> (r: Vec<String>)
    ensures
        string_views(r@) == search_dirs_spec(
            opt_chars(cwd),
            opt_chars(home),
            opt_chars(stellar_config_home),
            opt_chars(xdg_config_home),
        ),
{
    let mut dirs: Vec<String> = Vec::new();
    push_joined(&mut dirs, cwd, ".stellar");
    let ghost local = string_views(dirs@);
    match stellar_config_home {
        Some(d) => {
            let s = to_owned_string(d);
            proof {
                crate::text::lemma_string_views_push(dirs@, s);
            }
            dirs.push(s);
        },
        None => {
            push_joined(&mut dirs, xdg_config_home, "stellar");
            push_home_config(&mut dirs, home, "stellar");
        },
    }
    let ghost with_global = string_views(dirs@);
    push_joined(&mut dirs, cwd, ".soroban");
    push_home_config(&mut dirs, home, "soroban");
    proof {
        let global = match opt_chars(stellar_config_home) {
            Some(d) => seq![d],
            None => joined_if(opt_chars(xdg_config_home), "stellar"@) + home_config(
                opt_chars(home),
                "stellar"@,
            ),
        };
        assert(with_global =~= joined_if(opt_chars(cwd), ".stellar"@) + global);
        assert(string_views(dirs@) =~= joined_if(opt_chars(cwd), ".stellar"@) + global + joined_if(
            opt_chars(cwd),
            ".soroban"@,
        ) + home_config(opt_chars(home), "soroban"@));
    }
    dedup_strings(dirs)
}

// ── Identity names and files ──────────────────────────────────────────────────

/// Characters `stellar keys generate` accepts in a name: ASCII letters and
/// digits, `-` and `_`.
pub open spec fn is_name_char(c: char) -> bool {
    ('a' <= c && c <= 'z') || ('A' <= c && c <= 'Z') || ('0' <= c && c <= '9') || c == '-' || c
        == '_'
}

/// Identity names become file names: non-empty, and only name characters,
/// which rules out path traversal.
pub open spec fn valid_identity_name(name: Seq<char>) -> bool {
    name.len() > 0 && forall|i: int| 0 <= i < name.len() ==> is_name_char(#[trigger] name[i])
}

/// Why a name is refused.
pub open spec fn invalid_name_message(name: Seq<char>) -> Seq<char> {
    "Invalid stellar-cli identity name '"@ + name + "': use letters, digits, '-' or '_'"@
}

fn name_char(c: char) -> (r: bool)
    ensures
        r == is_name_char(c),
{
    ('a' <= c && c <= 'z') || ('A' <= c && c <= 'Z') || ('0' <= c && c <= '9') || c == '-' || c
        == '_'
}

/// Check an identity name before it is used as a file name.
pub fn validate_identity_name(name: &str) -> (r: Result<(), String>)
    ensures
        valid_identity_name(name@) ==> r is Ok,
        !valid_identity_name(name@) ==> (r matches Err(m) && m@ == invalid_name_message(name@)),
{
    let c = chars_of(name);
    let mut ok = c.len() > 0;
    let mut i: usize = 0;
    while i < c.len()
        invariant
            c@ == name@,
            i <= c@.len(),
            ok == (c@.len() > 0 && forall|k: int| 0 <= k < i ==> is_name_char(#[trigger] c@[k])),
        decreases c@.len() - i,
    {
        if !name_char(c[i]) {
            ok = false;
        }
        i += 1;
    }
    if ok {
        Ok(())
    } else {
        let mut m = to_owned_string("Invalid stellar-cli identity name '");
        push_str(&mut m, name);
        push_str(&mut m, "': use letters, digits, '-' or '_'");
        Err(m)
    }
}

/// The file that holds identity `name` under `dir`.
pub open spec fn identity_file(dir: Seq<char>, name: Seq<char>) -> Seq<char> {
    join_path(join_path(dir, "identity"@), name + ".toml"@)
}

/// The files that may hold identity `name`, one per directory and in the
/// directories' order; an invalid name is refused before any path is built.
pub fn identity_candidates(name: &str, dirs: &Vec<String>) -> (r: Result<Vec<String>, String>)
    ensures
        valid_identity_name(name@) ==> (r matches Ok(v) && string_views(v@) == dirs@.map_values(
            |d: String| identity_file(d@, name@),
        )),
        !valid_identity_name(name@) ==> (r matches Err(m) && m@ == invalid_name_message(name@)),
{
    match validate_identity_name(name) {
        Err(m) => {
            return Err(m);
        },
        Ok(()) => {},
    }
    let mut file = to_owned_string(name);
    push_str(&mut file, ".toml");
    let mut out: Vec<String> = Vec::new();
    let mut i: usize = 0;
    while i < dirs.len()
        invariant
            i <= dirs@.len(),
            file@ == name@ + ".toml"@,
            out@.len() == i,
            forall|k: int| 0 <= k < i ==> (#[trigger] out@[k])@ == identity_file(dirs@[k]@, name@),
        decreases dirs@.len() - i,
    {
        let sub = path_join(dirs[i].as_str(), "identity");
        let p = path_join(sub.as_str(), file.as_str());
        out.push(p);
        i += 1;
    }
    assert(string_views(out@) =~= dirs@.map_values(|d: String| identity_file(d@, name@)));
    Ok(out)
}

/// One line per searched directory: two spaces, then `<dir>/identity`.
pub open spec fn searched_lines(dirs: Seq<Seq<char>>) -> Seq<Seq<char>> {
    dirs.map_values(|d: Seq<char>| "  "@ + join_path(d, "identity"@))
}

/// The error when no directory holds the identity; it lists the directories.
pub open spec fn identity_not_found_message(name: Seq<char>, dirs: Seq<Seq<char>>) -> Seq<char> {
    "stellar-cli identity '"@ + name + "' not found. Searched:\n"@ + join_spec(
        searched_lines(dirs),
        "\n"@,
    ) + "\nList identities with `stellar keys ls`, or set STELLAR_CONFIG_HOME."@
}

/// The message for an identity that no searched directory holds.
pub fn identity_not_found(name: &str, dirs: &Vec<String>) -> (r: String)
    ensures
        r@ == identity_not_found_message(name@, string_views(dirs@)),
{
    let mut lines: Vec<String> = Vec::new();
    let mut i: usize = 0;
    while i < dirs.len()
        invariant
            i <= dirs@.len(),
            lines@.len() == i,
            forall|k: int|
                0 <= k < i ==> (#[trigger] lines@[k])@ == "  "@ + join_path(dirs@[k]@, "identity"@),
        decreases dirs@.len() - i,
    {
        let mut line = to_owned_string("  ");
        let sub = path_join(dirs[i].as_str(), "identity");
        push_str(&mut line, sub.as_str());
        lines.push(line);
        i += 1;
    }
    assert(string_views(lines@) =~= searched_lines(string_views(dirs@)));
    let mut m = to_owned_string("stellar-cli identity '");
    push_str(&mut m, name);
    push_str(&mut m, "' not found. Searched:\n");
    let listed = join(&lines, "\n");
    push_str(&mut m, listed.as_str());
    push_str(&mut m, "\nList identities with `stellar keys ls`, or set STELLAR_CONFIG_HOME.");
    m
}

// ── Reading an identity file ──────────────────────────────────────────────────

/// The file is not a TOML document.
pub const NOT_TOML: &'static str = "identity file is not valid TOML";

/// The identity holds only a public key.
pub const PUBLIC_KEY_ONLY: &'static str = "this identity only stores a public key, so there is nothing to sign with. Import the secret key instead, or use `starforge wallet import <name> --hardware ledger` for a Ledger";

/// The identity lives in the OS keychain.
pub const SECURE_STORE: &'static str = "this identity is kept in the OS keychain (secure store), which StarForge cannot read. Export it with `stellar keys show <name>` and use `starforge wallet import <name> --key`";

/// The identity is a Ledger device.
pub const LEDGER_IDENTITY: &'static str = "this is a Ledger identity. Use `starforge wallet import <name> --hardware ledger` instead";

/// The identity holds no key material this importer knows.
pub const NO_KEY_MATERIAL: &'static str = "identity file has neither 'secret_key' nor 'seed_phrase'";

/// The top-level entries of a TOML document, each as its key and, when the
/// value is a string, that string; `None` when `raw` is not a TOML document.
pub uninterp spec fn toml_document_entries(raw: Seq<char>) -> Option<
    Seq<(Seq<char>, Option<Seq<char>>)>,
>;

/// Entries as plain values.
pub open spec fn entry_views(v: Seq<(String, Option<String>)>) -> Seq<
    (Seq<char>, Option<Seq<char>>),
> {
    v.map_values(
        |e: (String, Option<String>)|
            (
                e.0@,
                match e.1 {
                    Some(s) => Some(s@),
                    None => None,
                },
            ),
    )
}

/// `raw.parse::<toml::Table>()`, each entry reduced to its key and, for a
/// `toml::Value::String`, the string.
#[verifier::external_body]
fn toml_entries(raw: &str) -> (r: Option<Vec<(String, Option<String>)>>)
    ensures
        match toml_document_entries(raw@) {
            Some(e) => r matches Some(v) && entry_views(v@) == e,
            None => r is None,
        },
{
    raw.parse::<toml::Table>().ok().map(
        |t| t.into_iter().map(|(k, v)| match v {
            toml::Value::String(s) => (k, Some(s)),
            _ => (k, None),
        }).collect(),
    )
}

/// The value of the first entry from index `i` on whose key is `key`: `None`
/// when there is none, else the entry's string (`None` inside when the value
/// is not a string).
pub open spec fn lookup_from(
    entries: Seq<(Seq<char>, Option<Seq<char>>)>,
    key: Seq<char>,
    i: int,
) -> Option<Option<Seq<char>>>
    decreases entries.len() - i,
{
    if i < 0 || i >= entries.len() {
        None
    } else if entries[i].0 == key {
        Some(entries[i].1)
    } else {
        lookup_from(entries, key, i + 1)
    }
}

/// Whether some key from index `i` on contains `needle`.
pub open spec fn some_key_contains(
    entries: Seq<(Seq<char>, Option<Seq<char>>)>,
    needle: Seq<char>,
    i: int,
) -> bool
    decreases entries.len() - i,
{
    if i < 0 || i >= entries.len() {
        false
    } else {
        contains_seq(entries[i].0, needle) || some_key_contains(entries, needle, i + 1)
    }
}

/// What an identity file's entries hold: a secret key (`true`) or a seed
/// phrase (`false`) with its trimmed text, or why it cannot be imported.
/// `secret_key` is looked at first, then `seed_phrase`; a non-string value
/// for either is an error.
pub open spec fn identity_key_spec(entries: Seq<(Seq<char>, Option<Seq<char>>)>) -> Result<
    (bool, Seq<char>),
    Seq<char>,
> {
    match lookup_from(entries, "secret_key"@, 0) {
        Some(Some(s)) => Ok((true, trim(s))),
        Some(None) => Err("'"@ + "secret_key"@ + "' must be a string"@),
        None => match lookup_from(entries, "seed_phrase"@, 0) {
            Some(Some(s)) => Ok((false, trim(s))),
            Some(None) => Err("'"@ + "seed_phrase"@ + "' must be a string"@),
            None => if lookup_from(entries, "public_key"@, 0) is Some {
                Err(PUBLIC_KEY_ONLY@)
            } else if some_key_contains(entries, "secure_store"@, 0) {
                Err(SECURE_STORE@)
            } else if some_key_contains(entries, "ledger"@, 0) {
                Err(LEDGER_IDENTITY@)
            } else {
                Err(NO_KEY_MATERIAL@)
            },
        },
    }
}

/// What the text of an identity file holds. No error quotes the file.
pub open spec fn parsed_identity(raw: Seq<char>) -> Result<(bool, Seq<char>), Seq<char>> {
    match toml_document_entries(raw) {
        None => Err(NOT_TOML@),
        Some(entries) => identity_key_spec(entries),
    }
}

fn opt_string_view(o: &Option<String>) -> (r: Option<String>)
    ensures
        match (r, *o) {
            (Some(a), Some(b)) => a@ == b@,
            (None, None) => true,
            _ => false,
        },
{
    match o {
        Some(s) => Some(s.clone()),
        None => None,
    }
}

fn field_of(entries: &Vec<(String, Option<String>)>, key: &str) -> (r: Option<Option<String>>)
    ensures
        match (r, lookup_from(entry_views(entries@), key@, 0)) {
            (None, None) => true,
            (Some(None), Some(None)) => true,
            (Some(Some(s)), Some(Some(t))) => s@ == t,
            _ => false,
        },
{
    let ghost e = entry_views(entries@);
    let mut i: usize = 0;
    while i < entries.len()
        invariant
            e == entry_views(entries@),
            i <= entries@.len(),
            lookup_from(e, key@, 0) == lookup_from(e, key@, i as int),
        decreases entries@.len() - i,
    {
        if str_eq(entries[i].0.as_str(), key) {
            return Some(opt_string_view(&entries[i].1));
        }
        i += 1;
    }
    None
}

fn key_contains(entries: &Vec<(String, Option<String>)>, needle: &str) -> (r: bool)
    ensures
        r == some_key_contains(entry_views(entries@), needle@, 0),
{
    let ghost e = entry_views(entries@);
    let mut i: usize = 0;
    while i < entries.len()
        invariant
            e == entry_views(entries@),
            i <= entries@.len(),
            some_key_contains(e, needle@, 0) == some_key_contains(e, needle@, i as int),
        decreases entries@.len() - i,
    {
        let k = chars_of(entries[i].0.as_str());
        if contains_str(&k, needle) {
            return true;
        }
        i += 1;
    }
    false
}

/// The key held by the entries of an identity file, or why there is none.
pub fn identity_key(entries: &Vec<(String, Option<String>)>) -> (r: Result<StellarCliKey, String>)
    ensures
        match identity_key_spec(entry_views(entries@)) {
            Ok(parts) => r matches Ok(k) && key_parts(k) == parts,
            Err(m) => r matches Err(e) && e@ == m,
        },
{
    match field_of(entries, "secret_key") {
        Some(Some(s)) => {
            return Ok(StellarCliKey::SecretKey(string_of(&trim_str(s.as_str()))));
        },
        Some(None) => {
            let mut m = to_owned_string("'");
            push_str(&mut m, "secret_key");
            push_str(&mut m, "' must be a string");
            return Err(m);
        },
        None => {},
    }
    match field_of(entries, "seed_phrase") {
        Some(Some(s)) => {
            return Ok(StellarCliKey::SeedPhrase(string_of(&trim_str(s.as_str()))));
        },
        Some(None) => {
            let mut m = to_owned_string("'");
            push_str(&mut m, "seed_phrase");
            push_str(&mut m, "' must be a string");
            return Err(m);
        },
        None => {},
    }
    if field_of(entries, "public_key").is_some() {
        Err(to_owned_string(PUBLIC_KEY_ONLY))
    } else if key_contains(entries, "secure_store") {
        Err(to_owned_string(SECURE_STORE))
    } else if key_contains(entries, "ledger") {
        Err(to_owned_string(LEDGER_IDENTITY))
    } else {
        Err(to_owned_string(NO_KEY_MATERIAL))
    }
}

/// Parse the contents of a stellar-cli identity file.
///
/// Errors never include the file contents, which hold secret material.
pub fn parse_identity(raw: &str) -> (r: Result<StellarCliKey, String>)
    ensures
        match parsed_identity(raw@) {
            Ok(parts) => r matches Ok(k) && key_parts(k) == parts,
            Err(m) => r matches Err(e) && e@ == m,
        },
{
    match toml_entries(raw) {
        None => Err(to_owned_string(NOT_TOML)),
        Some(entries) => identity_key(&entries),
    }
}

} // verus!
