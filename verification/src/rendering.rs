use tabled::builder::Builder;
use tabled::settings::{Settings, Style};
use vstd::prelude::*;
use crate::reader::Message;

verus! {

/// The text of the table that `tabled` draws in its `psql` style from a
/// header line and the records below it.
pub uninterp spec fn psql_table(headers: Seq<Seq<char>>, rows: Seq<Seq<Seq<char>>>) -> Seq<char>;

/// Draws a table with one header line and one line for each row, in the
/// `psql` style of `tabled`: `Builder::set_header`, `Builder::push_record` for
/// each row in turn, `Builder::build`, `Table::with` and `to_string`. The
/// text depends on the header and the rows alone.
#[verifier::external_body]
pub fn render(headers: Vec<&str>, rows: Vec<Vec<String>>) -> (text: String)
    ensures
        text@ == psql_table(headers.deep_view(), rows.deep_view()),
{
    let mut builder = Builder::new();
    builder.set_header(headers);
    for row in rows {
        builder.push_record(row);
    }
    builder.build().with(Settings::default().with(Style::psql())).to_string()
}

/// What `String::from_utf8_lossy` makes of bytes: their text, with the
/// replacement character in place of every sequence that is not UTF-8.
pub uninterp spec fn utf8_lossy(bytes: Seq<u8>) -> Seq<char>;

/// `String::from_utf8_lossy`, with the text handed out as a `String`. The
/// same bytes always give the same text.
#[verifier::external_body]
fn decode_lossy(bytes: &Vec<u8>) -> (text: String)
    ensures
        text@ == utf8_lossy(bytes@),
{
    String::from_utf8_lossy(bytes).into_owned()
}

/// One message as a line of a table: its key and its value as text.
#[derive(Debug)]
pub struct TabledMessage {
    key: String,
    value: String,
}

impl View for TabledMessage {
    type V = (Seq<char>, Seq<char>);

    closed spec fn view(&self) -> (Seq<char>, Seq<char>) {
        (self.key@, self.value@)
    }
}

/// The header line of a table of messages.
pub open spec fn message_headers() -> Seq<Seq<char>> {
    seq!["key"@, "value"@]
}

/// The lines of a table of messages: for each message its key, then its value.
pub open spec fn message_rows(messages: Seq<TabledMessage>) -> Seq<Seq<Seq<char>>> {
    Seq::new(messages.len(), |i: int| seq![messages[i]@.0, messages[i]@.1])
}

impl TabledMessage {
    /// A line with the given texts.
    pub fn new(key: String, value: String) -> (line: TabledMessage)
        ensures
            line@ == (key@, value@),
    {
        TabledMessage { key, value }
    }

    /// The line for a message: key and value are decoded as UTF-8, as far
    /// as they are.
    pub fn from_message(message: &Message) -> (line: TabledMessage)
        ensures
            line@ == (utf8_lossy(message.key@), utf8_lossy(message.value@)),
    {
        TabledMessage { key: decode_lossy(&message.key), value: decode_lossy(&message.value) }
    }

    pub fn key(&self) -> (key: &str)
        ensures
            key@ == self@.0,
    {
        self.key.as_str()
    }

    pub fn value(&self) -> (value: &str)
        ensures
            value@ == self@.1,
    {
        self.value.as_str()
    }
}

/// Draws the table of a batch of messages, under the header `key`, `value`.
pub fn render_messages(messages: &Vec<TabledMessage>) -> (text: String)
    ensures
        text@ == psql_table(message_headers(), message_rows(messages@)),
{
    let mut headers: Vec<&str> = Vec::new();
    headers.push("key");
    headers.push("value");
    let mut rows: Vec<Vec<String>> = Vec::new();
    let mut i: usize = 0;
    while i < messages.len()
        invariant
            i <= messages.len(),
            rows@.len() == i,
            forall|k: int|
                0 <= k < i ==> (#[trigger] rows@[k]).deep_view() == seq![
                    messages@[k]@.0,
                    messages@[k]@.1,
                ],
        decreases messages.len() - i,
    {
        let mut row: Vec<String> = Vec::new();
        row.push(messages[i].key.clone());
        row.push(messages[i].value.clone());
        assert(row.deep_view() =~= seq![messages@[i as int]@.0, messages@[i as int]@.1]);
        rows.push(row);
        i += 1;
    }
    assert(rows.deep_view() =~= message_rows(messages@));
    assert(headers.deep_view() =~= message_headers());
    render(headers, rows)
}

} // verus!
