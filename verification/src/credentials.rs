//! User names and passwords for the shares, as they are kept on Linux: a text in which each key has
//! an object with a user name and a password.
use crate::paths::{home_dir, join, joined, Environment};
use crate::text::join2;
use vstd::prelude::*;

verus! {

/// Objects by key: a value of `serde_json` for each.
#[verifier::external_body]
pub struct Entries {
    data: std::collections::HashMap<String, serde_json::Value>,
}

/// What entries hold: for each key the text fields of the object there. A value that is no object
/// has none.
pub uninterp spec fn contents(e: Entries) -> Map<Seq<char>, Map<Seq<char>, Seq<char>>>;

/// The entries that a JSON text holds, or why it is no object.
pub uninterp spec fn entries_in(content: Seq<char>) -> Result<
    Map<Seq<char>, Map<Seq<char>, Seq<char>>>,
    Seq<char>,
>;

/// Whether a JSON text holds the given entries and nothing else.
pub open spec fn holds(
    content: Seq<char>,
    entries: Map<Seq<char>, Map<Seq<char>, Seq<char>>>,
) -> bool {
    entries_in(content) matches Ok(found) && found == entries
}

/// No key at all.
pub open spec fn no_entries() -> Map<Seq<char>, Map<Seq<char>, Seq<char>>> {
    Map::empty()
}

/// The characters of a field that was read.
pub open spec fn field_text(f: Option<Option<String>>) -> Option<Option<Seq<char>>> {
    match f {
        Some(Some(s)) => Some(Some(s@)),
        Some(None) => Some(None),
        None => None,
    }
}

/// What entries hold at a key: nothing, or the text of a field of the object there, which is
/// nothing where the field is no text.
pub open spec fn field_at(
    entries: Map<Seq<char>, Map<Seq<char>, Seq<char>>>,
    key: Seq<char>,
    field: Seq<char>,
) -> Option<Option<Seq<char>>> {
    if !entries.contains_key(key) {
        None
    } else if entries[key].contains_key(field) {
        Some(Some(entries[key][field]))
    } else {
        Some(None)
    }
}

impl Entries {
    /// Makes an empty map with `HashMap::new`.
    #[verifier::external_body]
    fn none() -> (e: Entries)
        ensures
            contents(e) == no_entries(),
    {
        Entries { data: std::collections::HashMap::new() }
    }

    /// Reads a text with `serde_json::from_str`, as an object of any values. The contract only
    /// claims that the entries, or the reason why there are none, depend on the text alone.
    #[verifier::external_body]
    fn parse(content: &str) -> (r: Result<Entries, String>)
        ensures
            match r {
                Ok(e) => holds(content@, contents(e)),
                Err(m) => entries_in(content@) matches Err(why) && why == m@,
            },
    {
        match serde_json::from_str(content) {
            Ok(data) => Ok(Entries { data }),
            Err(e) => Err(e.to_string()),
        }
    }

    /// Sets a key to a `serde_json` object of two texts with `HashMap::insert`, which replaces what
    /// was there. Of two texts under one name the second stays.
    #[verifier::external_body]
    fn insert(&mut self, key: &str, first: (&str, &str), second: (&str, &str))
        ensures
            contents(*final(self)) == contents(*old(self)).insert(
                key@,
                map![first.0@ => first.1@, second.0@ => second.1@],
            ),
    {
        let mut entry = serde_json::Map::new();
        entry.insert(first.0.to_string(), serde_json::Value::String(first.1.to_string()));
        entry.insert(second.0.to_string(), serde_json::Value::String(second.1.to_string()));
        self.data.insert(key.to_string(), serde_json::Value::Object(entry));
    }

    /// Removes a key with `HashMap::remove`.
    #[verifier::external_body]
    fn remove(&mut self, key: &str)
        ensures
            contents(*final(self)) == contents(*old(self)).remove(key@),
    {
        self.data.remove(key);
    }

    /// Reads a field with `HashMap::get`, with the indexing of `serde_json::Value`, which gives null
    /// where there is no such field, and with `as_str`.
    #[verifier::external_body]
    fn field(&self, key: &str, field: &str) -> (r: Option<Option<String>>)
        ensures
            field_text(r) == field_at(contents(*self), key@, field@),
    {
        self.data.get(key).map(|entry| entry[field].as_str().map(|s| s.to_string()))
    }

    /// Writes the entries with `serde_json::to_string_pretty`. The contract claims that this
    /// succeeds, since all keys are texts and all values are JSON, and that the text is read back as
    /// the same entries. It does not say how the text looks: the order of its keys is left open.
    #[verifier::external_body]
    fn render(&self) -> (r: Result<String, String>)
        ensures
            r is Ok,
            r matches Ok(t) ==> holds(t@, contents(*self)),
    {
        serde_json::to_string_pretty(&self.data).map_err(|e| e.to_string())
    }
}

/// The entries of a file: a text that is no object counts as empty.
pub open spec fn kept_in(content: Seq<char>) -> Map<Seq<char>, Map<Seq<char>, Seq<char>>> {
    match entries_in(content) {
        Ok(entries) => entries,
        Err(_) => no_entries(),
    }
}

fn kept_entries(content: &str) -> (e: Entries)
    ensures
        contents(e) == kept_in(content@),
{
    match Entries::parse(content) {
        Ok(e) => e,
        Err(_) => Entries::none(),
    }
}

/// The object that keeps a user name and a password.
pub open spec fn credential_fields(username: Seq<char>, password: Seq<char>) -> Map<
    Seq<char>,
    Seq<char>,
> {
    map!["u"@ => username, "p"@ => password]
}

/// The text of a field; empty where there is none.
pub open spec fn text_or_empty(f: Option<Option<Seq<char>>>) -> Seq<char> {
    match f {
        Some(Some(s)) => s,
        _ => Seq::empty(),
    }
}

/// The credentials from what was read of the two fields of a key.
pub open spec fn pair_of(
    user: Option<Option<Seq<char>>>,
    password: Option<Option<Seq<char>>>,
) -> Option<(Seq<char>, Seq<char>)> {
    match user {
        Some(_) => Some((text_or_empty(user), text_or_empty(password))),
        None => None,
    }
}

/// The credentials that entries hold at a key.
pub open spec fn credentials_at(
    entries: Map<Seq<char>, Map<Seq<char>, Seq<char>>>,
    key: Seq<char>,
) -> Option<(Seq<char>, Seq<char>)> {
    pair_of(field_at(entries, key, "u"@), field_at(entries, key, "p"@))
}

fn text_of(f: Option<Option<String>>) -> (out: String)
    ensures
        out@ == text_or_empty(field_text(f)),
{
    match f {
        Some(Some(s)) => s,
        _ => {
            let out = String::new();
            assert(out@ =~= Seq::<char>::empty());
            out
        },
    }
}

/// The credentials from what was read of the two fields of a key.
pub fn credentials_of(
    key: &str,
    user: Option<Option<String>>,
    password: Option<Option<String>>,
) -> (r: Result<(String, String), String>)
    ensures
        match r {
            Ok((u, p)) => pair_of(field_text(user), field_text(password)) == Some((u@, p@)),
            Err(e) => user is None && e@ == "No credentials found for "@ + key@,
        },
{
    match user {
        Some(u) => Ok((text_of(Some(u)), text_of(password))),
        None => Err(join2("No credentials found for ", key)),
    }
}

/// What is answered when the text of the file was written, or could not be.
pub fn saved(written: Result<String, String>) -> (r: Result<String, String>)
    ensures
        match written {
            Ok(t) => r == Ok::<String, String>(t),
            Err(e) => r matches Err(m) && m@ == "Failed to serialize credentials: "@ + e@,
        },
{
    match written {
        Ok(t) => Ok(t),
        Err(e) => Err(join2("Failed to serialize credentials: ", e.as_str())),
    }
}

/// Keeps credentials in a file.
pub struct LinuxCredentialStore;

impl LinuxCredentialStore {
    /// The store has no state of its own.
    pub fn new() -> (s: LinuxCredentialStore)
        ensures
            s == LinuxCredentialStore,
    {
        LinuxCredentialStore
    }

    /// The directory of the file and its path.
    pub fn cred_file_path(env: &Environment) -> (r: (String, String))
        ensures
            r.0@ == home_dir(*env, ".local/share/ufb"@, "/tmp/ufb"@),
            r.1@ == joined(env.platform, r.0@, "credentials.json"@),
    {
        let dir = crate::paths::below_home(env, ".local/share/ufb", "/tmp/ufb");
        let file = join(env.platform, dir.as_str(), "credentials.json");
        (dir, file)
    }

    /// The text of the file after credentials were stored: it holds them beside those of other
    /// keys.
    pub fn store(&self, content: &str, key: &str, username: &str, password: &str) -> (r: Result<
        String,
        String,
    >)
        ensures
            r matches Ok(t) && holds(
                t@,
                kept_in(content@).insert(key@, credential_fields(username@, password@)),
            ),
    {
        let mut data = kept_entries(content);
        data.insert(key, ("u", username), ("p", password));
        saved(data.render())
    }

    /// The credentials of a key: empty texts stand for fields that are missing.
    pub fn retrieve(&self, content: &str, key: &str) -> (r: Result<(String, String), String>)
        ensures
            match r {
                Ok((u, p)) => credentials_at(kept_in(content@), key@) == Some((u@, p@)),
                Err(e) => credentials_at(kept_in(content@), key@) is None && e@
                    == "No credentials found for "@ + key@,
            },
    {
        let data = kept_entries(content);
        let user = data.field(key, "u");
        let password = data.field(key, "p");
        credentials_of(key, user, password)
    }

    /// The text of the file after credentials were deleted: it holds those of all other keys.
    pub fn delete(&self, content: &str, key: &str) -> (r: Result<String, String>)
        ensures
            r matches Ok(t) && holds(t@, kept_in(content@).remove(key@)),
    {
        let mut data = kept_entries(content);
        data.remove(key);
        saved(data.render())
    }
}

/// Stored credentials are read back, deleted ones are gone, and those of other keys stay.
pub proof fn law_credentials_are_kept(
    content: Seq<char>,
    key: Seq<char>,
    username: Seq<char>,
    password: Seq<char>,
    other: Seq<char>,
)
    requires
        other != key,
    ensures
        ({
            let before = kept_in(content);
            let stored = before.insert(key, credential_fields(username, password));
            let deleted = before.remove(key);
            &&& credentials_at(stored, key) == Some((username, password))
            &&& credentials_at(deleted, key) is None
            &&& credentials_at(stored, other) == credentials_at(before, other)
            &&& credentials_at(deleted, other) == credentials_at(before, other)
        }),
{
    reveal_strlit("u");
    reveal_strlit("p");
    assert("u"@[0] != "p"@[0]);
}

/// What was stored in a file is retrieved from it, user name and password each as it was given;
/// what was deleted is not, and is told by its key.
pub proof fn law_stored_credentials_are_retrieved(
    s: LinuxCredentialStore,
    content: &str,
    key: &str,
    username: &str,
    password: &str,
    stored: Result<String, String>,
    after_store: &str,
    found: Result<(String, String), String>,
    deleted: Result<String, String>,
    after_delete: &str,
    missing: Result<(String, String), String>,
)
    requires
        call_ensures(
            LinuxCredentialStore::store,
            (&s, content, key, username, password),
            stored,
        ),
        stored matches Ok(t) ==> t@ == after_store@,
        call_ensures(LinuxCredentialStore::retrieve, (&s, after_store, key), found),
        call_ensures(LinuxCredentialStore::delete, (&s, content, key), deleted),
        deleted matches Ok(t) ==> t@ == after_delete@,
        call_ensures(LinuxCredentialStore::retrieve, (&s, after_delete, key), missing),
    ensures
        stored is Ok,
        found matches Ok(pair) && pair.0@ == username@ && pair.1@ == password@,
        deleted is Ok,
        missing matches Err(e) && e@ == "No credentials found for "@ + key@,
{
    let other = key@.push('x');
    assert(other.len() != key@.len());
    law_credentials_are_kept(content@, key@, username@, password@, other);
}

} // verus!
