//! Signing in to Plex: a PIN is asked for, the user confirms it in a browser, and the PIN is asked
//! about until it comes with a token. The token is kept in the configuration file.

use crate::text;
use vstd::prelude::*;
use vstd::string::*;

verus! {

/// The name that this program has with Plex.
pub const CLIENT_ID: &'static str = "groovy-cli-plex-client";

/// The name that Plex shows to the user.
pub const PRODUCT: &'static str = "Groovy CLI";

/// Where a PIN is asked for.
pub const PIN_URL: &'static str = "https://plex.tv/api/v2/pins";

/// A text in which `%20` stands for each space.
pub open spec fn space_encoded(s: Seq<char>) -> Seq<char>
    decreases s.len(),
{
    if s.len() == 0 {
        seq![]
    } else {
        space_encoded(s.drop_last()) + if s.last() == ' ' {
            "%20"@
        } else {
            seq![s.last()]
        }
    }
}

/// Writes `%20` for each space.
pub fn urlencoded(s: &str) -> (encoded: String)
    ensures
        encoded@ == space_encoded(s@),
{
    let chars: Vec<char> = text::chars_of(s);
    let mut encoded: String = String::new();
    let mut i: usize = 0;
    assert(encoded@ =~= space_encoded(s@.take(0)));
    while i < chars.len()
        invariant
            i <= chars@.len(),
            chars@ == s@,
            encoded@ == space_encoded(s@.take(i as int)),
        decreases chars@.len() - i,
    {
        let ghost before = encoded@;
        if chars[i] == ' ' {
            encoded.append("%20");
        } else {
            encoded.push(chars[i]);
            assert(encoded@ =~= before + seq![s@[i as int]]);
        }
        proof {
            assert(s@.take(i + 1).drop_last() =~= s@.take(i as int));
            assert(s@.take(i + 1).last() == s@[i as int]);
        }
        i += 1;
    }
    assert(s@.take(s@.len() as int) =~= s@);
    encoded
}

/// An encoded text has no space.
pub proof fn law_encoded_has_no_space(s: Seq<char>)
    ensures
        !space_encoded(s).contains(' '),
    decreases s.len(),
{
    if s.len() > 0 {
        law_encoded_has_no_space(s.drop_last());
        reveal_strlit("%20");
        let rest = space_encoded(s.drop_last());
        let whole = space_encoded(s);
        assert forall|i: int| 0 <= i < whole.len() implies whole[i] != ' ' by {
            if i < rest.len() {
                assert(rest.contains(rest[i]));
            }
        }
    }
}

/// Where the user confirms a PIN.
pub fn auth_url(code: &str) -> (url: String)
    ensures
        url@ == "https://app.plex.tv/auth#?clientID="@ + CLIENT_ID@ + "&code="@ + code@
            + "&context%5Bdevice%5D%5Bproduct%5D="@ + space_encoded(PRODUCT@),
{
    let mut url: String = "https://app.plex.tv/auth#?clientID=".to_string();
    url.append(CLIENT_ID);
    url.append("&code=");
    url.append(code);
    url.append("&context%5Bdevice%5D%5Bproduct%5D=");
    url.append(urlencoded(PRODUCT).as_str());
    url
}

/// Where a PIN is asked about.
pub fn poll_url(id: u64) -> (url: String)
    ensures
        url@ == PIN_URL@ + "/"@ + text::decimal(id as nat),
{
    let mut url: String = PIN_URL.to_string();
    url.append("/");
    text::push_decimal(&mut url, id);
    url
}

/// How often a PIN is asked about, once a second.
pub const MAX_POLLS: u32 = 120;

/// What an answer about a PIN leads to.
pub enum PollStep {
    /// The PIN was confirmed: this is the token.
    Authorized(String),
    /// It was not, and is asked about again. A dot is shown after every fifth answer.
    Pending { dot: bool },
    /// It was not, and too much time has passed.
    TimedOut { dot: bool },
}

/// How often a PIN was asked about.
#[derive(Clone, Copy, Debug, PartialEq, Eq, Structural)]
pub struct PinPolling {
    pub polls: u32,
}

impl PinPolling {
    /// What every answer keeps.
    pub open spec fn wf(self) -> bool {
        self.polls < MAX_POLLS
    }

    /// Before the first time.
    pub fn start() -> (polling: PinPolling)
        ensures
            polling.wf(),
            polling.polls == 0,
    {
        PinPolling { polls: 0 }
    }

    /// Takes the token of an answer: one that is missing or empty means that the PIN is not
    /// confirmed.
    pub fn answered(&mut self, token: Option<String>) -> (step: PollStep)
        requires
            old(self).wf(),
        ensures
            step is Authorized || step is TimedOut || final(self).wf(),
            step is Authorized <==> token is Some && token->0@.len() > 0,
            step is TimedOut <==> (token is None || token->0@.len() == 0) && old(self).polls == 119,
            step is Pending ==> final(self).polls == old(self).polls + 1 <= 119,
            match step {
                PollStep::Authorized(t) => {
                    &&& token matches Some(given) && given@.len() > 0 && t@ == given@
                    &&& *final(self) == *old(self)
                },
                PollStep::Pending { dot } => {
                    &&& token matches Some(given) ==> given@.len() == 0
                    &&& old(self).polls + 1 < MAX_POLLS
                    &&& final(self).polls == old(self).polls + 1
                    &&& dot == (old(self).polls % 5 == 4)
                },
                PollStep::TimedOut { dot } => {
                    &&& token matches Some(given) ==> given@.len() == 0
                    &&& old(self).polls + 1 == MAX_POLLS
                    &&& final(self).polls == MAX_POLLS
                    &&& dot == (old(self).polls % 5 == 4)
                },
            },
    {
        if let Some(given) = token {
            if !text::is_empty(given.as_str()) {
                return PollStep::Authorized(given);
            }
        }
        let dot: bool = self.polls % 5 == 4;
        self.polls = self.polls + 1;
        if self.polls < MAX_POLLS {
            PollStep::Pending { dot }
        } else {
            PollStep::TimedOut { dot }
        }
    }
}

/// A table of a TOML document.
#[verifier::external_type_specification]
#[verifier::external_body]
#[verifier::reject_recursive_types(K)]
#[verifier::reject_recursive_types(V)]
pub struct ExMap<K, V>(toml::map::Map<K, V>);

/// A value of a TOML document.
#[verifier::external_type_specification]
#[verifier::external_body]
pub struct ExValue(toml::Value);

/// What a table holds.
pub uninterp spec fn table_entries(table: toml::map::Map<String, toml::Value>) -> Map<
    Seq<char>,
    toml::Value,
>;

/// The table that a TOML document holds, `None` where the text is no such document.
pub uninterp spec fn document_entries(document: Seq<char>) -> Option<Map<Seq<char>, toml::Value>>;

/// The TOML value of a text.
pub uninterp spec fn text_value(content: Seq<char>) -> toml::Value;

/// The TOML document of a table, or the text of the error.
pub uninterp spec fn document_of(entries: Map<Seq<char>, toml::Value>) -> Result<
    Seq<char>,
    Seq<char>,
>;

/// Calls `str::parse` for `toml::Table`: the table that the document holds. It depends on the text
/// alone; an error is dropped.
#[verifier::external_body]
fn parse_table(document: &str) -> (table: Option<toml::map::Map<String, toml::Value>>)
    ensures
        match table {
            Some(t) => document_entries(document@) == Some(table_entries(t)),
            None => document_entries(document@) is None,
        },
{
    document.parse::<toml::Table>().ok()
}

/// Calls `toml::map::Map::new`: an empty table.
#[verifier::external_body]
fn empty_table() -> (table: toml::map::Map<String, toml::Value>)
    ensures
        table_entries(table).dom().is_empty(),
{
    toml::Table::new()
}

/// Calls `toml::map::Map::insert` with a text as the value: the entry with the key is set to it,
/// and the others stay.
#[verifier::external_body]
fn set_text(table: &mut toml::map::Map<String, toml::Value>, key: &str, content: &str)
    ensures
        table_entries(*final(table)) == table_entries(*old(table)).insert(
            key@,
            text_value(content@),
        ),
{
    table.insert(key.to_string(), toml::Value::String(content.to_string()));
}

/// Calls `toml::to_string_pretty`: the document of a table, or the text that the error's `Display`
/// gives. A table is kept in the order of its keys, so that its entries alone decide.
#[verifier::external_body]
fn write_table(table: &toml::map::Map<String, toml::Value>) -> (document: Result<String, String>)
    ensures
        match document {
            Ok(d) => document_of(table_entries(*table)) == Ok::<Seq<char>, Seq<char>>(d@),
            Err(text) => document_of(table_entries(*table)) == Err::<Seq<char>, Seq<char>>(text@),
        },
{
    toml::to_string_pretty(table).map_err(|e| e.to_string())
}

/// The entries of the configuration file with a token: those that were there, but for the token. A
/// file that is missing or no TOML document counts as empty.
pub open spec fn entries_with_token(document: Option<Seq<char>>, token: Seq<char>) -> Map<
    Seq<char>,
    toml::Value,
> {
    let entries = match document {
        Some(text) => match document_entries(text) {
            Some(entries) => entries,
            None => Map::empty(),
        },
        None => Map::empty(),
    };
    entries.insert("token"@, text_value(token))
}

/// The configuration file with a token, where `document` is what it held, if it was there.
pub fn save_token(document: Option<&str>, token: &str) -> (saved: Result<String, String>)
    ensures
        ({
            let entries = entries_with_token(
                match document {
                    Some(text) => Some(text@),
                    None => None,
                },
                token@,
            );
            match saved {
                Ok(d) => document_of(entries) == Ok::<Seq<char>, Seq<char>>(d@),
                Err(text) => document_of(entries) == Err::<Seq<char>, Seq<char>>(text@),
            }
        }),
{
    let read: Option<toml::map::Map<String, toml::Value>> = match document {
        Some(text) => parse_table(text),
        None => None,
    };
    let mut table: toml::map::Map<String, toml::Value> = match read {
        Some(table) => table,
        None => {
            let table = empty_table();
            assert(table_entries(table) =~= Map::empty());
            table
        },
    };
    set_text(&mut table, "token", token);
    write_table(&table)
}

/// Saving a token keeps every other entry of a configuration file that could be read, and saving
/// another one replaces it.
pub proof fn law_token_replaces_token(document: Seq<char>, first: Seq<char>, second: Seq<char>)
    ensures
        document_entries(document) matches Some(entries) ==> {
            let after = entries_with_token(Some(document), first);
            &&& forall|key: Seq<char>|
                key != "token"@ ==> (after.dom().contains(key) <==> entries.dom().contains(key))
                    && after[key] == entries[key]
            &&& after.dom().contains("token"@)
            &&& after["token"@] == text_value(first)
            &&& after.insert("token"@, text_value(second)) == entries_with_token(
                Some(document),
                second,
            )
        },
{
    if let Some(entries) = document_entries(document) {
        assert(entries.insert("token"@, text_value(first)).insert("token"@, text_value(second))
            =~= entries.insert("token"@, text_value(second)));
    }
}

/// Every space of a text is encoded, wherever it stands, and nothing else is changed.
pub proof fn law_spaces_alone_are_encoded(first: Seq<char>, second: Seq<char>, c: char)
    ensures
        space_encoded(first + second) == space_encoded(first) + space_encoded(second),
        space_encoded(seq![' ']) == seq!['%', '2', '0'],
        c != ' ' ==> space_encoded(seq![c]) == seq![c],
    decreases second.len(),
{
    reveal_strlit("%20");
    assert(space_encoded(Seq::<char>::empty()) =~= seq![]);
    assert(seq![' '].drop_last() =~= seq![]);
    assert(seq![c].drop_last() =~= seq![]);
    assert(space_encoded(seq![' ']) =~= seq!['%', '2', '0']);
    assert(c != ' ' ==> space_encoded(seq![c]) =~= seq![c]);
    if second.len() == 0 {
        assert(first + second =~= first);
        assert(space_encoded(first) + space_encoded(second) =~= space_encoded(first));
    } else {
        let all = first + second;
        assert(all.drop_last() =~= first + second.drop_last());
        assert(all.last() == second.last());
        law_spaces_alone_are_encoded(first, second.drop_last(), c);
        assert(space_encoded(all) =~= space_encoded(first) + space_encoded(second));
    }
}

/// Where there is no configuration file, or one that cannot be read, the token is the only entry.
pub proof fn law_new_file_holds_the_token_alone(document: Option<Seq<char>>, token: Seq<char>)
    requires
        document matches Some(text) ==> document_entries(text) is None,
    ensures
        entries_with_token(document, token).dom() == set!["token"@],
        entries_with_token(document, token)["token"@] == text_value(token),
{
    assert(entries_with_token(document, token).dom() =~= set!["token"@]);
}

} // verus!
