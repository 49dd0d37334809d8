//! The tokenizer for one quoted string.
//!
//! A quoted string is optional whitespace, a `"`, one or more characters, and
//! the first `"` behind them that no backslash escapes. A `"` is escaped when
//! the backslashes directly in front of it are odd in number. What the string
//! stands for is the text between the quotes, with the backslash of each
//! escaped `"` taken out; every other backslash stands for itself.

use crate::util::cursor::Cursor;
use crate::util::text::{lemma_trim_start, to_chars, trim_start};
use vstd::prelude::*;
use vstd::string::*;

verus! {

/// Why a quoted string could not be read.
#[derive(Debug, Eq, PartialOrd, PartialEq, Ord, Hash, Clone)]
pub enum StringParseErrorCode {
    /// The text does not begin, after whitespace, with `"`.
    StringWithoutOpeningQuote,
    /// Nothing follows the opening `"`.
    InvalidString,
    /// Nothing stands between the quotes.
    EmptyString,
    /// The text ends before a `"` that is not escaped.
    StringWithoutClosingQuote,
}

/// How many backslashes stand in a row directly in front of position `i`.
pub open spec fn backslash_run(s: Seq<char>, i: int) -> nat
    decreases i,
{
    if 0 < i <= s.len() && s[i - 1] == '\\' {
        1 + backslash_run(s, i - 1)
    } else {
        0
    }
}

/// Position `i` of `s` holds a `"` that is not escaped.
pub open spec fn is_closing_quote(s: Seq<char>, i: int) -> bool {
    0 <= i < s.len() && s[i] == '"' && backslash_run(s, i) % 2 == 0
}

/// The first position at or behind `from` that holds a `"` that is not
/// escaped, or the length of `s` if there is none.
pub open spec fn closing_quote_from(s: Seq<char>, from: int) -> int
    decreases s.len() - from,
{
    if from < 0 || from >= s.len() {
        s.len() as int
    } else if is_closing_quote(s, from) {
        from
    } else {
        closing_quote_from(s, from + 1)
    }
}

/// The first position of `s` that holds a `"` that is not escaped.
pub open spec fn closing_quote(s: Seq<char>) -> Option<int> {
    let k = closing_quote_from(s, 0);
    if k < s.len() {
        Some(k)
    } else {
        None
    }
}

/// `s` with every backslash taken out that stands directly in front of a `"`.
pub open spec fn unescape(s: Seq<char>) -> Seq<char>
    decreases s.len(),
{
    if s.len() == 0 {
        s
    } else if s[0] == '\\' && s.len() > 1 && s[1] == '"' {
        unescape(s.skip(1))
    } else {
        seq![s[0]] + unescape(s.skip(1))
    }
}

/// How many line feeds `s` holds.
pub open spec fn newlines(s: Seq<char>) -> nat
    decreases s.len(),
{
    if s.len() == 0 {
        0
    } else {
        newlines(s.drop_last()) + if s.last() == '\n' {
            1nat
        } else {
            0nat
        }
    }
}

/// What reading one quoted string comes to.
pub ghost struct Parsed {
    /// The string read, or why none was.
    pub result: Result<Seq<char>, StringParseErrorCode>,
    /// The text left behind the cursor.
    pub rest: Seq<char>,
    /// The line feeds that the scan behind the opening quote went over.
    pub newlines: nat,
}

/// Reading one quoted string from the front of `s`.
///
/// On success the rest begins behind the closing quote. On failure it begins
/// where the reading stopped: behind the character found in place of the
/// opening quote, behind the opening quote, behind the closing quote of an
/// empty string, or at the end of the text.
pub open spec fn parse_string_spec(s: Seq<char>) -> Parsed {
    let t = trim_start(s);
    if t.len() == 0 {
        Parsed { result: Err(StringParseErrorCode::StringWithoutOpeningQuote), rest: t, newlines: 0 }
    } else if t[0] != '"' {
        Parsed {
            result: Err(StringParseErrorCode::StringWithoutOpeningQuote),
            rest: t.skip(1),
            newlines: 0,
        }
    } else {
        let body = t.skip(1);
        if body.len() == 0 {
            Parsed { result: Err(StringParseErrorCode::InvalidString), rest: body, newlines: 0 }
        } else {
            match closing_quote(body) {
                None => Parsed {
                    result: Err(StringParseErrorCode::StringWithoutClosingQuote),
                    rest: Seq::empty(),
                    newlines: newlines(body),
                },
                Some(k) => Parsed {
                    result: if k == 0 {
                        Err(StringParseErrorCode::EmptyString)
                    } else {
                        Ok(unescape(body.take(k)))
                    },
                    rest: body.skip(k + 1),
                    newlines: newlines(body.take(k)),
                },
            }
        }
    }
}

/// The text does not begin, after whitespace, with `"`.
pub open spec fn lacks_opening_quote(s: Seq<char>) -> bool {
    trim_start(s).len() == 0 || trim_start(s)[0] != '"'
}

/// The characters of a string that was read, or the error.
pub open spec fn result_view(r: Result<String, StringParseErrorCode>) -> Result<
    Seq<char>,
    StringParseErrorCode,
> {
    match r {
        Ok(s) => Ok(s@),
        Err(e) => Err(e),
    }
}

/// The message for `err`.
pub open spec fn string_parse_error_message(err: StringParseErrorCode) -> Seq<char> {
    match err {
        StringParseErrorCode::StringWithoutOpeningQuote => "Your string did not contain an opening quote."@,
        StringParseErrorCode::InvalidString => "Your string consisted of only an opening parenthesis and nothing else."@,
        StringParseErrorCode::EmptyString => "Your string was empty. This is not allowed as all aliases must have names and values that are not empty."@,
        StringParseErrorCode::StringWithoutClosingQuote => "Your string did not contain a closing quote."@,
    }
}

/// `closing_quote_from` finds a closing quote, the first one at or behind
/// `from`, or reports the length where there is none.
pub proof fn lemma_closing_quote_from(s: Seq<char>, from: int)
    requires
        0 <= from <= s.len(),
    ensures
        from <= closing_quote_from(s, from) <= s.len(),
        closing_quote_from(s, from) < s.len() ==> is_closing_quote(s, closing_quote_from(s, from)),
        forall|j: int| from <= j < closing_quote_from(s, from) ==> !is_closing_quote(s, j),
    decreases s.len() - from,
{
    if from < s.len() && !is_closing_quote(s, from) {
        lemma_closing_quote_from(s, from + 1);
    }
}

/// A position in front of which no closing quote stands, and which holds one
/// itself or is the end of the text, is what `closing_quote_from` finds.
pub proof fn lemma_closing_quote_unique(s: Seq<char>, from: int, k: int)
    requires
        0 <= from <= k <= s.len(),
        forall|j: int| from <= j < k ==> !is_closing_quote(s, j),
        k < s.len() ==> is_closing_quote(s, k),
    ensures
        closing_quote_from(s, from) == k,
    decreases k - from,
{
    if from < k {
        lemma_closing_quote_unique(s, from + 1, k);
    }
}

/// The run of backslashes in front of a position depends only on the text in
/// front of it.
pub proof fn lemma_backslash_run_prefix(s: Seq<char>, t: Seq<char>, i: int)
    requires
        0 <= i <= s.len(),
        i <= t.len(),
        s.take(i) == t.take(i),
    ensures
        backslash_run(s, i) == backslash_run(t, i),
    decreases i,
{
    if i > 0 {
        assert(s[i - 1] == s.take(i)[i - 1]);
        assert(t[i - 1] == t.take(i)[i - 1]);
        assert(s.take(i - 1) =~= s.take(i).take(i - 1));
        assert(t.take(i - 1) =~= t.take(i).take(i - 1));
        lemma_backslash_run_prefix(s, t, i - 1);
    }
}

/// Text without a `"` is its own `unescape`.
pub proof fn lemma_unescape_without_quote(s: Seq<char>)
    requires
        !s.contains('"'),
    ensures
        unescape(s) == s,
    decreases s.len(),
{
    if s.len() > 0 {
        if s.len() > 1 {
            assert(s.contains(s[1]));
        }
        assert forall|c: char| s.skip(1).contains(c) implies s.contains(c) by {
            let i = choose|i: int| 0 <= i < s.skip(1).len() && s.skip(1)[i] == c;
            assert(s[i + 1] == c);
        }
        lemma_unescape_without_quote(s.skip(1));
        assert(seq![s[0]] + s.skip(1) =~= s);
    }
}

/// `unescape` loses nothing but backslashes: text that is not empty stays so.
pub proof fn lemma_unescape_nonempty(s: Seq<char>)
    requires
        s.len() > 0,
    ensures
        unescape(s).len() > 0,
    decreases s.len(),
{
    if s[0] == '\\' && s.len() > 1 && s[1] == '"' {
        lemma_unescape_nonempty(s.skip(1));
    }
}

/// What is left behind the cursor is the end of what was in front of it.
pub proof fn lemma_rest_is_suffix(s: Seq<char>)
    ensures
        parse_string_spec(s).rest.len() <= s.len(),
        parse_string_spec(s).rest == s.skip(s.len() - parse_string_spec(s).rest.len()),
{
    lemma_trim_start(s);
    let t = trim_start(s);
    let d = s.len() - t.len();
    if t.len() == 0 {
    } else if t[0] != '"' {
        assert(t.skip(1) =~= s.skip(d + 1));
    } else {
        let body = t.skip(1);
        assert(body =~= s.skip(d + 1));
        if body.len() == 0 {
        } else {
            lemma_closing_quote_from(body, 0);
            match closing_quote(body) {
                None => {
                    assert(s.skip(s.len() as int) =~= Seq::<char>::empty());
                },
                Some(k) => {
                    assert(body.skip(k + 1) =~= s.skip(d + 1 + k + 1));
                },
            }
        }
    }
}

/// A string that was read holds at least one character, and at least two
/// characters were read to get it.
pub proof fn lemma_parsed_string(s: Seq<char>)
    requires
        parse_string_spec(s).result is Ok,
    ensures
        parse_string_spec(s).result->Ok_0.len() > 0,
        parse_string_spec(s).rest.len() + 2 < s.len(),
{
    lemma_trim_start(s);
    let body = trim_start(s).skip(1);
    lemma_closing_quote_from(body, 0);
    let k = closing_quote(body)->Some_0;
    lemma_unescape_nonempty(body.take(k));
}

/// Text that does not begin, after whitespace, with a quote is never read as
/// a string: the reading fails with `StringWithoutOpeningQuote`.
pub proof fn lemma_lacks_opening_quote(s: Seq<char>)
    requires
        lacks_opening_quote(s),
    ensures
        parse_string_spec(s).result == Err::<Seq<char>, StringParseErrorCode>(
            StringParseErrorCode::StringWithoutOpeningQuote,
        ),
{
}

/// The message for `err`.
pub fn string_parse_error_to_string(err: &StringParseErrorCode) -> (message: String)
    ensures
        message@ == string_parse_error_message(*err),
{
    match err {
        StringParseErrorCode::StringWithoutOpeningQuote => String::from_str(
            "Your string did not contain an opening quote.",
        ),
        StringParseErrorCode::InvalidString => String::from_str(
            "Your string consisted of only an opening parenthesis and nothing else.",
        ),
        StringParseErrorCode::EmptyString => String::from_str(
            "Your string was empty. This is not allowed as all aliases must have names and values that are not empty.",
        ),
        StringParseErrorCode::StringWithoutClosingQuote => String::from_str(
            "Your string did not contain a closing quote.",
        ),
    }
}

/// Copies `span` characters from the front of `cursor`, leaving out the
/// backslash of each escaped quote. The cursor stays in place.
fn copy_unescaped(cursor: &Cursor, span: usize) -> (out: String)
    requires
        span <= cursor@.len(),
    ensures
        out@ == unescape(cursor@.take(span as int)),
{
    let ghost text = cursor@.take(span as int);
    let mut out = String::new();
    let mut i: usize = 0;
    assert(text.skip(0) =~= text);
    assert(out@ + unescape(text) =~= unescape(text));
    while i < span
        invariant
            i <= span <= cursor@.len(),
            text == cursor@.take(span as int),
            out@ + unescape(text.skip(i as int)) == unescape(text),
        decreases span - i,
    {
        let c = cursor.get(i).unwrap();
        let ghost tail = text.skip(i as int);
        assert(tail[0] == c);
        assert(tail.skip(1) =~= text.skip(i + 1));
        let escapes = c == '\\' && i + 1 < span && cursor.get(i + 1).unwrap() == '"';
        assert(escapes == (tail[0] == '\\' && tail.len() > 1 && tail[1] == '"'));
        if !escapes {
            let ghost before = out@;
            out.push(c);
            assert(before.push(c) + unescape(tail.skip(1)) =~= before + (seq![c] + unescape(
                tail.skip(1),
            )));
        }
        i += 1;
    }
    assert(out@ + unescape(text.skip(span as int)) =~= out@);
    out
}

/// Reads one quoted string at the cursor and counts the line feeds that the
/// scan behind the opening quote goes over.
pub fn scan_quoted_string(cursor: &mut Cursor) -> (r: (
    Result<String, StringParseErrorCode>,
    usize,
))
    ensures
        result_view(r.0) == parse_string_spec(old(cursor)@).result,
        final(cursor)@ == parse_string_spec(old(cursor)@).rest,
        r.1 == parse_string_spec(old(cursor)@).newlines,
        lacks_opening_quote(old(cursor)@) ==> r.0 == Err::<String, StringParseErrorCode>(
            StringParseErrorCode::StringWithoutOpeningQuote,
        ),
{
    cursor.trim_start();
    let first = cursor.pop_char();
    if first != Some('"') {
        return (Err(StringParseErrorCode::StringWithoutOpeningQuote), 0);
    }
    if cursor.is_empty() {
        return (Err(StringParseErrorCode::InvalidString), 0);
    }
    let ghost body = cursor@;
    let length = cursor.len();
    let mut index: usize = 0;
    let mut backslashes_in_a_row: usize = 0;
    let mut lines: usize = 0;
    let mut closed = false;
    while index < length && !closed
        invariant
            index <= length == body.len(),
            cursor@ == body,
            backslashes_in_a_row == backslash_run(body, index as int),
            backslashes_in_a_row <= index,
            lines == newlines(body.take(index as int)),
            lines <= index,
            forall|j: int| 0 <= j < index ==> !is_closing_quote(body, j),
            closed ==> index < length && is_closing_quote(body, index as int),
        decreases length - index + if closed { 0int } else { 1int },
    {
        let current_char = cursor.get(index).unwrap();
        if current_char == '"' && backslashes_in_a_row % 2 == 0 {
            closed = true;
        } else {
            assert(body.take(index + 1).drop_last() =~= body.take(index as int));
            if current_char == '\n' {
                lines += 1;
            }
            if current_char == '\\' {
                backslashes_in_a_row += 1;
            } else {
                backslashes_in_a_row = 0;
            }
            index += 1;
        }
    }
    proof {
        lemma_closing_quote_unique(body, 0, index as int);
    }
    if !closed {
        assert(body.take(index as int) =~= body);
        cursor.skip_to_end();
        return (Err(StringParseErrorCode::StringWithoutClosingQuote), lines);
    }
    let ret = copy_unescaped(cursor, index);
    cursor.advance(index + 1);
    if index == 0 {
        return (Err(StringParseErrorCode::EmptyString), lines);
    }
    (Ok(ret), lines)
}

/// Reads one quoted string at the cursor: the string between the quotes,
/// unescaped, with the cursor left behind the closing quote; or the reason why
/// the text at the cursor is no quoted string.
pub fn extract_quoted_string(cursor: &mut Cursor) -> (r: Result<String, StringParseErrorCode>)
    ensures
        result_view(r) == parse_string_spec(old(cursor)@).result,
        final(cursor)@ == parse_string_spec(old(cursor)@).rest,
        lacks_opening_quote(old(cursor)@) ==> r == Err::<String, StringParseErrorCode>(
            StringParseErrorCode::StringWithoutOpeningQuote,
        ),
{
    scan_quoted_string(cursor).0
}

/// Reads one quoted string from the front of `slice` and moves `slice` behind
/// what was read.
///
/// The text of `slice` is first decoded into a buffer of its characters, over
/// which the cursor then moves; besides the string returned, that buffer is
/// allocated and freed. `extract_quoted_string` works on a cursor that the
/// caller has, and allocates the returned string alone.
pub fn parse_string<'a>(slice: &mut &'a str) -> (r: Result<String, StringParseErrorCode>)
    ensures
        result_view(r) == parse_string_spec(old(slice)@).result,
        final(slice)@ == parse_string_spec(old(slice)@).rest,
        lacks_opening_quote(old(slice)@) ==> r == Err::<String, StringParseErrorCode>(
            StringParseErrorCode::StringWithoutOpeningQuote,
        ),
{
    let text: &'a str = *slice;
    let chars = to_chars(text);
    let mut cursor = Cursor::new(chars.as_slice());
    let r = extract_quoted_string(&mut cursor);
    proof {
        lemma_rest_is_suffix(text@);
    }
    *slice = text.substring_char(chars.len() - cursor.len(), chars.len());
    r
}

/// Reads one quoted string from the front of `slice`, moves `slice` behind
/// what was read, and adds to `current_line` the line feeds that the scan
/// behind the opening quote went over. Line feeds in front of the opening
/// quote are not counted.
///
/// As in `parse_string`, the text of `slice` is first decoded into a buffer
/// of its characters.
pub fn parse_string_track_lines<'a>(slice: &mut &'a str, current_line: &mut u32) -> (r: Result<
    String,
    StringParseErrorCode,
>)
    requires
        *old(current_line) + parse_string_spec(old(slice)@).newlines <= u32::MAX,
    ensures
        result_view(r) == parse_string_spec(old(slice)@).result,
        final(slice)@ == parse_string_spec(old(slice)@).rest,
        *final(current_line) == *old(current_line) + parse_string_spec(old(slice)@).newlines,
        lacks_opening_quote(old(slice)@) ==> r == Err::<String, StringParseErrorCode>(
            StringParseErrorCode::StringWithoutOpeningQuote,
        ),
{
    let text: &'a str = *slice;
    let chars = to_chars(text);
    let mut cursor = Cursor::new(chars.as_slice());
    let (r, lines) = scan_quoted_string(&mut cursor);
    proof {
        lemma_rest_is_suffix(text@);
    }
    *slice = text.substring_char(chars.len() - cursor.len(), chars.len());
    *current_line = *current_line + (lines as u32);
    r
}

} // verus!
