//! Files with Windows line endings and a byte order mark are read as the
//! same files without them.

use crate::subtitles::{byte_order_mark, normalize, parse_document};
use crate::text::{is_not, trim_start, without};
use vstd::prelude::*;

verus! {

/// One character as Windows writes it: a line feed with a carriage return
/// before it, any other character as it is.
pub open spec fn windows_char(c: char) -> Seq<char> {
    if c == '\n' {
        seq!['\r', '\n']
    } else {
        seq![c]
    }
}

/// The text with a carriage return before each line feed.
pub open spec fn with_carriage_returns(s: Seq<char>) -> Seq<char>
    decreases s.len(),
{
    if s.len() == 0 {
        Seq::empty()
    } else {
        windows_char(s[0]) + with_carriage_returns(s.skip(1))
    }
}

/// The text as Windows may write it: a byte order mark, and a carriage
/// return before each line feed.
pub open spec fn windows_text(s: Seq<char>) -> Seq<char> {
    seq![byte_order_mark()] + with_carriage_returns(s)
}

/// Carriage returns before the line feeds leave the leading byte order
/// marks where they are.
pub proof fn lemma_trim_start_with_carriage_returns(s: Seq<char>)
    ensures
        trim_start(with_carriage_returns(s), byte_order_mark()) == with_carriage_returns(
            trim_start(s, byte_order_mark()),
        ),
    decreases s.len(),
{
    let w = with_carriage_returns(s);
    if s.len() > 0 {
        let rest = with_carriage_returns(s.skip(1));
        assert(w[0] == windows_char(s[0])[0]);
        if s[0] == byte_order_mark() {
            assert(w =~= seq![s[0]] + rest);
            assert(w.skip(1) =~= rest);
            lemma_trim_start_with_carriage_returns(s.skip(1));
        }
    }
}

/// Dropping the carriage returns undoes their writing before the line
/// feeds.
pub proof fn lemma_without_carriage_returns(s: Seq<char>)
    ensures
        without(with_carriage_returns(s), '\r') == without(s, '\r'),
    decreases s.len(),
{
    let keep = is_not('\r');
    if s.len() == 0 {
    } else {
        let first = seq![s[0]];
        let rest = s.skip(1);
        lemma_without_carriage_returns(rest);
        assert(s =~= first + rest);
        Seq::filter_distributes_over_add(first, rest, keep);
        Seq::filter_distributes_over_add(windows_char(s[0]), with_carriage_returns(rest), keep);
        assert(windows_char(s[0]).filter(keep) == first.filter(keep)) by {
            let none = Seq::<char>::empty();
            none.lemma_filter_push(s[0], keep);
            assert(none.push(s[0]) =~= first);
            if s[0] == '\n' {
                none.lemma_filter_push('\r', keep);
                none.push('\r').lemma_filter_push('\n', keep);
                assert(none.push('\r').push('\n') =~= windows_char(s[0]));
            }
        }
    }
}

/// A file written with a byte order mark and with a carriage return before
/// each line feed is parsed as the file without them.
pub proof fn lemma_windows_text_parses_alike(s: Seq<char>)
    ensures
        normalize(windows_text(s)) == normalize(s),
        parse_document(windows_text(s)) == parse_document(s),
{
    let w = windows_text(s);
    assert(w.skip(1) =~= with_carriage_returns(s));
    assert(trim_start(w, byte_order_mark()) == trim_start(
        with_carriage_returns(s),
        byte_order_mark(),
    ));
    lemma_trim_start_with_carriage_returns(s);
    lemma_without_carriage_returns(trim_start(s, byte_order_mark()));
}

} // verus!
