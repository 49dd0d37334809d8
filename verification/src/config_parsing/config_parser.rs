//! The codec of the alias file.
//!
//! The file lists the aliases one after the other, each as a quoted name, an
//! equal sign and a quoted command text. Whitespace may stand around each of
//! the three; a line end behind each entry is what the encoder writes.

use crate::alias_table::{table_of, well_formed, AliasTable, Entry};
use crate::alias_table::{distinct_names, lemma_table_of};
use crate::string_parsing::string_parser::{
    backslash_run, extract_quoted_string, is_closing_quote, lemma_backslash_run_prefix,
    lemma_closing_quote_unique, lemma_parsed_string, lemma_rest_is_suffix,
    lemma_unescape_without_quote, parse_string_spec, string_parse_error_message,
    string_parse_error_to_string, StringParseErrorCode,
};
use crate::util::text::{
    all_whitespace, is_whitespace, lemma_trim_end, lemma_trim_end_suffix, lemma_trim_start_prefix,
};
use crate::util::cursor::Cursor;
use crate::util::platform::Platform;
use crate::util::text::{append_decimal, decimal, lemma_trim_start, to_chars, trim, trim_start};
use vstd::prelude::*;
use vstd::string::*;

verus! {

/// Why no alias table could be had from the alias file.
#[derive(Debug, Eq, PartialOrd, PartialEq, Ord, Hash, Clone)]
pub enum ConfigParseErrorCode {
    /// There was no alias file; an empty one has been created.
    ConfigNotFound,
    /// There was no alias file, and none could be created; with what the
    /// operating system said.
    ConfigCouldNotBeCreated(String),
    /// Something other than `=` follows the name of the entry with this number.
    MissingEqualSign(usize),
    /// Nothing follows the name of the entry with this number.
    MissingAliasValue(usize),
    /// The name of the entry with this number is no quoted string.
    InvalidAlias(StringParseErrorCode, usize),
    /// The command text of the entry with this number is no quoted string.
    InvalidValue(StringParseErrorCode, usize),
}

/// Decoding the entries that `s` holds, the first of them being entry number
/// `index`, into a table that already holds `table`. A name that occurs
/// again takes the place of the earlier one.
pub open spec fn decode_entries(
    s: Seq<char>,
    index: nat,
    table: Map<Seq<char>, Seq<char>>,
) -> Result<Map<Seq<char>, Seq<char>>, ConfigParseErrorCode>
    decreases s.len(),
    via decode_entries_decreases
{
    if s.len() == 0 {
        Ok(table)
    } else {
        let name = parse_string_spec(s);
        match name.result {
            Err(e) => Err(ConfigParseErrorCode::InvalidAlias(e, index as usize)),
            Ok(alias) => {
                let t = trim_start(name.rest);
                if t.len() == 0 {
                    Err(ConfigParseErrorCode::MissingAliasValue(index as usize))
                } else if t[0] != '=' {
                    Err(ConfigParseErrorCode::MissingEqualSign(index as usize))
                } else {
                    let content = parse_string_spec(t.skip(1));
                    match content.result {
                        Err(e) => Err(ConfigParseErrorCode::InvalidValue(e, index as usize)),
                        Ok(value) => decode_entries(
                            trim_start(content.rest),
                            index + 1,
                            table.insert(alias, value),
                        ),
                    }
                }
            },
        }
    }
}

#[via_fn]
proof fn decode_entries_decreases(s: Seq<char>, index: nat, table: Map<Seq<char>, Seq<char>>) {
    let name = parse_string_spec(s);
    lemma_rest_is_suffix(s);
    lemma_trim_start(name.rest);
    let t = trim_start(name.rest);
    if t.len() > 0 {
        let content = parse_string_spec(t.skip(1));
        lemma_rest_is_suffix(t.skip(1));
        lemma_trim_start(content.rest);
    }
}

/// The table that the text of an alias file stands for, or the first fault in
/// the text. Entries are numbered from 1.
pub open spec fn decode(text: Seq<char>) -> Result<Map<Seq<char>, Seq<char>>, ConfigParseErrorCode> {
    decode_entries(trim(text), 1, Map::empty())
}

/// One entry as the alias file holds it.
pub open spec fn encode_entry(entry: Entry, line_end: Seq<char>) -> Seq<char> {
    seq!['"'] + entry.0 + seq!['"', ' ', '=', ' ', '"'] + entry.1 + seq!['"'] + line_end
}

/// The text of the alias file that lists `entries` in their order.
pub open spec fn encode(entries: Seq<Entry>, line_end: Seq<char>) -> Seq<char>
    decreases entries.len(),
{
    if entries.len() == 0 {
        Seq::empty()
    } else {
        encode(entries.drop_last(), line_end) + encode_entry(entries.last(), line_end)
    }
}

/// The text between the quotes of an entry may be `s`: it is not empty, holds
/// no `"`, and does not end in a backslash that would escape the closing
/// quote. The encoder escapes nothing, so only such text is read back as it
/// was written.
pub open spec fn survives_encoding(s: Seq<char>) -> bool {
    s.len() > 0 && !s.contains('"') && backslash_run(s, s.len() as int) % 2 == 0
}

/// Every name and every command text of `entries` survives encoding.
pub open spec fn entries_survive_encoding(entries: Seq<Entry>) -> bool {
    forall|i: int|
        0 <= i < entries.len() ==> survives_encoding((#[trigger] entries[i]).0)
            && survives_encoding(entries[i].1)
}

/// One entry as the alias file holds it, without the line end.
pub open spec fn encode_entry_bare(entry: Entry) -> Seq<char> {
    seq!['"'] + entry.0 + seq!['"', ' ', '=', ' ', '"'] + entry.1 + seq!['"']
}

/// `r` is the table, or the error, that `expected` says.
pub open spec fn decoded_as(
    r: Result<AliasTable, ConfigParseErrorCode>,
    expected: Result<Map<Seq<char>, Seq<char>>, ConfigParseErrorCode>,
) -> bool {
    match (r, expected) {
        (Ok(table), Ok(map)) => table@ == map,
        (Err(e), Err(f)) => e == f,
        _ => false,
    }
}

/// The message for `err`, with lines ending in `line_end`.
pub open spec fn config_parse_error_message(err: ConfigParseErrorCode, line_end: Seq<char>) -> Seq<
    char,
> {
    match err {
        ConfigParseErrorCode::ConfigNotFound => "A config file could not be found. A new one has been created."@,
        ConfigParseErrorCode::ConfigCouldNotBeCreated(s) => "A config file could not be found. Creating a new one also failed. Here is the error the OS reported when creating the file:"@
            + line_end + s@,
        ConfigParseErrorCode::MissingEqualSign(v) => "Expected an equal sign after alias name. Line number: "@
            + decimal(v as nat),
        ConfigParseErrorCode::MissingAliasValue(v) => "Missing alias value. Line number: "@
            + decimal(v as nat),
        ConfigParseErrorCode::InvalidAlias(e, v) => "The alias name could not be parsed into a string. Line number: "@
            + decimal(v as nat) + ". Here is the string parse error:"@ + line_end
            + string_parse_error_message(e) + "."@,
        ConfigParseErrorCode::InvalidValue(e, v) => "The alias value could not be parsed into a string. Line number: "@
            + decimal(v as nat) + ". Here is the string parse error:"@ + line_end
            + string_parse_error_message(e) + "."@,
    }
}

/// The message for `err`, as `platform` ends its lines.
pub fn config_parse_error_to_string(err: &ConfigParseErrorCode, platform: Platform) -> (message:
    String)
    ensures
        message@ == config_parse_error_message(*err, platform.line_end()),
{
    match err {
        ConfigParseErrorCode::ConfigNotFound => String::from_str(
            "A config file could not be found. A new one has been created.",
        ),
        ConfigParseErrorCode::ConfigCouldNotBeCreated(s) => {
            let mut message = String::from_str(
                "A config file could not be found. Creating a new one also failed. Here is the error the OS reported when creating the file:",
            );
            message.append(platform.end_of_line_sequence());
            message.append(s.as_str());
            message
        },
        ConfigParseErrorCode::MissingEqualSign(v) => {
            let mut message = String::from_str(
                "Expected an equal sign after alias name. Line number: ",
            );
            append_decimal(&mut message, *v);
            message
        },
        ConfigParseErrorCode::MissingAliasValue(v) => {
            let mut message = String::from_str("Missing alias value. Line number: ");
            append_decimal(&mut message, *v);
            message
        },
        ConfigParseErrorCode::InvalidAlias(e, v) => {
            let mut message = String::from_str(
                "The alias name could not be parsed into a string. Line number: ",
            );
            append_decimal(&mut message, *v);
            message.append(". Here is the string parse error:");
            message.append(platform.end_of_line_sequence());
            message.append(string_parse_error_to_string(e).as_str());
            message.append(".");
            message
        },
        ConfigParseErrorCode::InvalidValue(e, v) => {
            let mut message = String::from_str(
                "The alias value could not be parsed into a string. Line number: ",
            );
            append_decimal(&mut message, *v);
            message.append(". Here is the string parse error:");
            message.append(platform.end_of_line_sequence());
            message.append(string_parse_error_to_string(e).as_str());
            message.append(".");
            message
        },
    }
}

/// Decodes the text of an alias file: the table that it stands for, or the
/// first fault in it.
///
/// The text is decoded once into a buffer of its characters; one cursor then
/// moves over that buffer from entry to entry, and nothing of it is copied
/// but the names and command texts that enter the table.
pub fn parse_config(config_as_string: String) -> (r: Result<AliasTable, ConfigParseErrorCode>)
    ensures
        decoded_as(r, decode(config_as_string@)),
        r matches Ok(table) ==> well_formed(table@),
{
    let chars = to_chars(config_as_string.as_str());
    let total = chars.len();
    let mut cursor = Cursor::new(chars.as_slice());
    cursor.trim_start();
    cursor.trim_end();
    let mut result = AliasTable::new();
    let mut current_alias: usize = 1;
    let ghost text = config_as_string@;
    proof {
        lemma_trim_start(text);
        lemma_trim_end(trim_start(text));
    }
    while !cursor.is_empty()
        invariant
            text == config_as_string@,
            decode_entries(cursor@, current_alias as nat, result@) == decode(text),
            current_alias + cursor@.len() <= chars@.len() + 1,
            chars@.len() == total,
            well_formed(result@),
        decreases cursor@.len(),
    {
        let ghost s = cursor@;
        proof {
            lemma_rest_is_suffix(s);
            lemma_trim_start(parse_string_spec(s).rest);
        }
        let alias = match extract_quoted_string(&mut cursor) {
            Err(e) => {
                return Err(ConfigParseErrorCode::InvalidAlias(e, current_alias));
            },
            Ok(alias) => alias,
        };
        cursor.trim_start();
        let ghost t = cursor@;
        match cursor.pop_char() {
            None => {
                return Err(ConfigParseErrorCode::MissingAliasValue(current_alias));
            },
            Some(c) => {
                if c != '=' {
                    return Err(ConfigParseErrorCode::MissingEqualSign(current_alias));
                }
            },
        }
        proof {
            lemma_rest_is_suffix(t.skip(1));
            lemma_trim_start(parse_string_spec(t.skip(1)).rest);
        }
        let value = match extract_quoted_string(&mut cursor) {
            Err(e) => {
                return Err(ConfigParseErrorCode::InvalidValue(e, current_alias));
            },
            Ok(value) => value,
        };
        proof {
            lemma_parsed_string(s);
            lemma_parsed_string(t.skip(1));
        }
        result.insert(alias, value);
        cursor.trim_start();
        current_alias += 1;
    }
    Ok(result)
}

/// Text that survives encoding is read back from between its quotes, whatever
/// whitespace stands in front and whatever text follows.
pub proof fn lemma_parse_quoted(w: Seq<char>, s: Seq<char>, rest: Seq<char>)
    requires
        all_whitespace(w),
        survives_encoding(s),
    ensures
        parse_string_spec(w + seq!['"'] + s + seq!['"'] + rest).result == Ok::<
            Seq<char>,
            StringParseErrorCode,
        >(s),
        parse_string_spec(w + seq!['"'] + s + seq!['"'] + rest).rest == rest,
{
    let text = w + seq!['"'] + s + seq!['"'] + rest;
    let t = seq!['"'] + s + seq!['"'] + rest;
    assert(text =~= w + t);
    lemma_trim_start_prefix(w, t);
    let body = t.skip(1);
    assert(body =~= s + seq!['"'] + rest);
    let k = s.len() as int;
    assert(body.take(k) =~= s);
    assert(s.take(k) =~= s);
    lemma_backslash_run_prefix(body, s, k);
    assert forall|j: int| 0 <= j < k implies !is_closing_quote(body, j) by {
        assert(s.contains(s[j]));
    }
    lemma_closing_quote_unique(body, 0, k);
    lemma_unescape_without_quote(s);
    assert(body.skip(k + 1) =~= rest);
}

/// One encoded entry in front of `rest` decodes to its name and command
/// text, and decoding goes on with `rest`.
pub proof fn lemma_decode_entry(
    entry: Entry,
    w: Seq<char>,
    rest: Seq<char>,
    index: nat,
    table: Map<Seq<char>, Seq<char>>,
)
    requires
        survives_encoding(entry.0),
        survives_encoding(entry.1),
        all_whitespace(w),
        rest.len() == 0 || !is_whitespace(rest[0]),
    ensures
        decode_entries(encode_entry_bare(entry) + w + rest, index, table) == decode_entries(
            rest,
            index + 1,
            table.insert(entry.0, entry.1),
        ),
{
    let text = encode_entry_bare(entry) + w + rest;
    let after_name = seq![' ', '=', ' ', '"'] + entry.1 + seq!['"'] + w + rest;
    assert(text =~= Seq::<char>::empty() + seq!['"'] + entry.0 + seq!['"'] + after_name);
    lemma_parse_quoted(Seq::empty(), entry.0, after_name);
    let t = seq!['=', ' ', '"'] + entry.1 + seq!['"'] + w + rest;
    assert(after_name =~= seq![' '] + t);
    lemma_trim_start_prefix(seq![' '], t);
    let after_content = w + rest;
    assert(t.skip(1) =~= seq![' '] + seq!['"'] + entry.1 + seq!['"'] + after_content);
    lemma_parse_quoted(seq![' '], entry.1, after_content);
    lemma_trim_start_prefix(w, rest);
}

/// The encoding of a list of entries begins with the encoding of the first.
pub proof fn lemma_encode_front(entries: Seq<Entry>, line_end: Seq<char>)
    requires
        entries.len() > 0,
    ensures
        encode(entries, line_end) == encode_entry(entries[0], line_end) + encode(
            entries.skip(1),
            line_end,
        ),
    decreases entries.len(),
{
    if entries.len() == 1 {
        assert(entries.drop_last() =~= Seq::<Entry>::empty());
        assert(entries.skip(1) =~= Seq::<Entry>::empty());
        assert(encode(entries.drop_last(), line_end) =~= Seq::<char>::empty());
        assert(encode(entries, line_end) =~= encode_entry(entries[0], line_end) + Seq::<
            char,
        >::empty());
    } else {
        let front = entries.drop_last();
        lemma_encode_front(front, line_end);
        assert(entries.skip(1).drop_last() =~= front.skip(1));
        assert(entries.skip(1).last() == entries.last());
        assert(front[0] == entries[0]);
        assert(encode(entries, line_end) =~= encode_entry(entries[0], line_end) + (encode(
            front.skip(1),
            line_end,
        ) + encode_entry(entries.last(), line_end)));
    }
}

/// The encoded entries, the last of them without its line end and with
/// `last_end` in its place.
pub open spec fn encode_open(entries: Seq<Entry>, line_end: Seq<char>, last_end: Seq<char>) -> Seq<
    char,
>
    recommends
        entries.len() > 0,
{
    encode(entries.drop_last(), line_end) + encode_entry_bare(entries.last()) + last_end
}

/// Decoding encoded entries adds each of them to the table, in their order.
pub proof fn lemma_decode_encoded(
    done: Seq<Entry>,
    entries: Seq<Entry>,
    line_end: Seq<char>,
    last_end: Seq<char>,
    index: nat,
)
    requires
        entries.len() > 0,
        entries_survive_encoding(entries),
        all_whitespace(line_end),
        all_whitespace(last_end),
    ensures
        decode_entries(encode_open(entries, line_end, last_end), index, table_of(done)) == Ok::<
            Map<Seq<char>, Seq<char>>,
            ConfigParseErrorCode,
        >(table_of(done + entries)),
    decreases entries.len(),
{
    let first = entries[0];
    let text = encode_open(entries, line_end, last_end);
    assert(done.push(first).drop_last() =~= done);
    assert(table_of(done.push(first)) == table_of(done).insert(first.0, first.1));
    if entries.len() == 1 {
        assert(entries.drop_last() =~= Seq::<Entry>::empty());
        assert(text =~= encode_entry_bare(first) + last_end + Seq::<char>::empty());
        lemma_decode_entry(first, last_end, Seq::empty(), index, table_of(done));
        assert(done + entries =~= done.push(first));
    } else {
        let tail = entries.skip(1);
        lemma_encode_front(entries.drop_last(), line_end);
        assert(entries.drop_last().skip(1) =~= tail.drop_last());
        assert(tail.last() == entries.last());
        let rest = encode_open(tail, line_end, last_end);
        assert(text =~= encode_entry_bare(first) + line_end + rest);
        assert(rest.len() > 0 && rest[0] == '"') by {
            if tail.len() > 1 {
                lemma_encode_front(tail.drop_last(), line_end);
            } else {
                assert(tail.drop_last() =~= Seq::<Entry>::empty());
            }
        }
        lemma_decode_entry(first, line_end, rest, index, table_of(done));
        assert forall|i: int| 0 <= i < tail.len() implies survives_encoding((#[trigger] tail[i]).0)
            && survives_encoding(tail[i].1) by {
            assert(tail[i] == entries[i + 1]);
        }
        lemma_decode_encoded(done.push(first), tail, line_end, last_end, index + 1);
        assert(done.push(first) + tail =~= done + entries);
    }
}

/// Decoding what the encoder wrote gives the table back: for every list of
/// entries whose names and command texts survive encoding, on either
/// platform, the decoded table maps each name to its command text, whatever
/// the order of the entries.
pub proof fn lemma_decode_encode(entries: Seq<Entry>, platform: Platform)
    requires
        entries_survive_encoding(entries),
    ensures
        decode(encode(entries, platform.line_end())) == Ok::<
            Map<Seq<char>, Seq<char>>,
            ConfigParseErrorCode,
        >(table_of(entries)),
{
    let line_end = platform.line_end();
    let text = encode(entries, line_end);
    if entries.len() == 0 {
        assert(trim(text) =~= Seq::<char>::empty());
    } else {
        let open = encode_open(entries, line_end, Seq::empty());
        assert(text =~= open + line_end);
        assert(open.len() > 0 && open[0] == '"' && open.last() == '"') by {
            if entries.len() > 1 {
                lemma_encode_front(entries.drop_last(), line_end);
            } else {
                assert(entries.drop_last() =~= Seq::<Entry>::empty());
            }
        }
        lemma_trim_start_prefix(Seq::empty(), text);
        assert(Seq::<char>::empty() + text =~= text);
        lemma_trim_end_suffix(open, line_end);
        lemma_decode_encoded(Seq::empty(), entries, line_end, Seq::empty(), 1);
        assert(Seq::<Entry>::empty() + entries =~= entries);
    }
}

/// Every name and every command text of the mapping survives encoding.
pub open spec fn table_survives_encoding(table: Map<Seq<char>, Seq<char>>) -> bool {
    forall|name: Seq<char>| #[trigger]
        table.contains_key(name) ==> survives_encoding(name) && survives_encoding(table[name])
}

/// Encodes the table as the text of an alias file: every entry once, in the
/// order in which the table lists them, each followed by the line end of
/// `platform`. Nothing is escaped: the text decodes to the table again where
/// every name and command text survives encoding.
pub fn config_to_string(cfg: &AliasTable, platform: Platform) -> (text: String)
    ensures
        text@ == encode(cfg.entries(), platform.line_end()),
        table_of(cfg.entries()) == cfg@,
        distinct_names(cfg.entries()),
        table_survives_encoding(cfg@) ==> decode(text@) == Ok::<
            Map<Seq<char>, Seq<char>>,
            ConfigParseErrorCode,
        >(cfg@),
{
    let count = cfg.len();
    proof {
        lemma_table_of(cfg.entries());
        if table_survives_encoding(cfg@) {
            assert forall|i: int| 0 <= i < cfg.entries().len() implies survives_encoding(
                (#[trigger] cfg.entries()[i]).0,
            ) && survives_encoding(cfg.entries()[i].1) by {
                assert(cfg@.contains_key(cfg.entries()[i].0));
            }
            lemma_decode_encode(cfg.entries(), platform);
        }
    }
    let mut result_string = String::new();
    let mut i: usize = 0;
    assert(cfg.entries().take(0) =~= Seq::<Entry>::empty());
    while i < count
        invariant
            i <= count == cfg.entries().len(),
            result_string@ == encode(cfg.entries().take(i as int), platform.line_end()),
        decreases count - i,
    {
        let (name, content) = cfg.entry(i).unwrap();
        proof {
            reveal_strlit("\" = \"");
            assert(cfg.entries().take(i + 1).drop_last() =~= cfg.entries().take(i as int));
        }
        let ghost before = result_string@;
        result_string.push('"');
        result_string.append(name.as_str());
        result_string.append("\" = \"");
        result_string.append(content.as_str());
        result_string.push('"');
        result_string.append(platform.end_of_line_sequence());
        assert(result_string@ =~= before + encode_entry(
            cfg.entries()[i as int],
            platform.line_end(),
        ));
        i += 1;
    }
    assert(cfg.entries().take(count as int) =~= cfg.entries());
    result_string
}

} // verus!
