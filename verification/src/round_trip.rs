//! What parsing and rendering a whole file undo of each other.

use crate::error::ParsingError;
use crate::number::{decimal, is_digit, lemma_decimal};
use crate::subtitle::{
    lemma_parse_rendered_subtitle, lemma_time_line, line_feed, parse_subtitle, time_line,
    SubtitleView,
};
use crate::subtitles::{
    blank_line, byte_order_mark, chunks, lemma_chunks_of_first_piece, lemma_chunks_of_last_piece,
    normalize, parse_chunks, parse_document, render_all,
};
use crate::text::{
    cut, find, has_alphanumeric, is_alphanumeric, leading, lemma_find, lemma_find_is,
    lemma_find_none, lemma_occurs_at_pair, lemma_trim_start, lemma_trim_start_keeps,
    lemma_without_holds_none, lemma_without_keeps, occurs_at, trim_start, without,
};
use crate::timestamp::{lemma_digits_hold_no_separator, lemma_parsed_time_is_representable};
use vstd::prelude::*;

verus! {

/// Whether `s` holds no empty line: no two line feeds side by side.
pub open spec fn no_blank_line(s: Seq<char>) -> bool {
    forall|j: int| 0 <= j && j + 1 < s.len() ==> !(#[trigger] s[j] == '\n' && s[j + 1] == '\n')
}

/// Whether `t` can be the text of a subtitle in a file: it holds neither a
/// carriage return nor an empty line, and does not begin with a line feed.
pub open spec fn plain_text(t: Seq<char>) -> bool {
    &&& !t.contains('\r')
    &&& no_blank_line(t)
    &&& t.len() > 0 ==> t[0] != '\n'
}

/// Whether a file can hold these subtitles as they are: each has fields
/// that a `Subtitle` can hold and a plain text, and each but the last has a
/// text that is not empty and does not end with a line feed.
pub open spec fn faithful(subs: Seq<SubtitleView>) -> bool {
    forall|i: int|
        0 <= i < subs.len() ==> {
            &&& (#[trigger] subs[i]).representable()
            &&& plain_text(subs[i].text)
            &&& i < subs.len() - 1 ==> subs[i].text.len() > 0 && subs[i].text.last() != '\n'
        }
}

/// The texts of the subtitles, one by one.
pub open spec fn rendered_each(subs: Seq<SubtitleView>) -> Seq<Seq<char>> {
    subs.map_values(|sub: SubtitleView| sub.rendered())
}

/// A text holds no empty line if the separator of two line feeds occurs
/// nowhere in it.
pub proof fn lemma_no_blank_line(s: Seq<char>)
    ensures
        no_blank_line(s) <==> forall|j: int| !occurs_at(s, blank_line(), j),
{
    assert forall|j: int| #![auto]
        occurs_at(s, blank_line(), j) <==> 0 <= j && j + 2 <= s.len() && s[j] == '\n' && s[j + 1]
            == '\n' by {
        lemma_occurs_at_pair(s, '\n', '\n', j);
    }
    if no_blank_line(s) {
        assert forall|j: int| !occurs_at(s, blank_line(), j) by {
            if occurs_at(s, blank_line(), j) {
                assert(s[j] == '\n' && s[j + 1] == '\n');
            }
        }
    }
    if forall|j: int| !occurs_at(s, blank_line(), j) {
        assert forall|j: int| 0 <= j && j + 1 < s.len() implies !(#[trigger] s[j] == '\n' && s[j
            + 1] == '\n') by {
            assert(!occurs_at(s, blank_line(), j));
        }
    }
}

/// The text of a subtitle with a plain text begins with a digit, holds
/// neither a carriage return nor an empty line, and ends as the text ends,
/// or with a line feed where the text is empty.
pub proof fn lemma_rendered_subtitle(sub: SubtitleView)
    requires
        sub.representable(),
        plain_text(sub.text),
    ensures
        sub.rendered().len() > 0,
        is_digit(sub.rendered()[0]),
        !sub.rendered().contains('\r'),
        no_blank_line(sub.rendered()),
        sub.rendered().last() == if sub.text.len() > 0 {
            sub.text.last()
        } else {
            '\n'
        },
{
    let number = decimal(sub.num);
    let none = Seq::<char>::empty();
    let line = time_line(sub.start, sub.end, none);
    let r = sub.rendered();
    let head = number + line_feed() + line + line_feed();
    lemma_decimal(sub.num);
    lemma_digits_hold_no_separator(number);
    lemma_time_line(sub.start, sub.end, none);
    crate::timestamp::lemma_rendered_chars(sub.start);
    crate::subtitle::lemma_time_holds_no_separator(sub.start);
    crate::subtitle::lemma_time_holds_no_separator(sub.end);
    assert(r =~= head + sub.text);
    assert(line_feed().len() == 1 && line_feed()[0] == '\n');
    let a = number.len() as int;
    let b = a + 1 + line.len();
    assert(head.len() == b + 1);
    assert(line.len() > 0 && line[0] == sub.start.rendered()[0]);
    // Where the head holds what.
    assert forall|j: int| 0 <= j < head.len() implies (#[trigger] head[j] == '\n' <==> j == a || j
        == b) && head[j] != '\r' by {
        if j < a {
            assert(head[j] == number[j]);
            assert(number.contains(number[j]));
        } else if a < j < b {
            assert(head[j] == line[j - a - 1]);
            assert(line.contains(line[j - a - 1]));
            let k = j - a - 1;
            let s = sub.start.rendered();
            let e = sub.end.rendered();
            if k < s.len() {
                assert(line[k] == s[k]);
                assert(s.contains(s[k]));
            } else if k < s.len() + 5 {
                assert(line[k] == crate::subtitle::arrow()[k - s.len()]);
            } else {
                assert(line[k] == e[k - s.len() - 5]);
                assert(e.contains(e[k - s.len() - 5]));
            }
        }
    }
    assert(head[a + 1] == line[0]);
    assert(!r.contains('\r')) by {
        if r.contains('\r') {
            let i = choose|i: int| 0 <= i < r.len() && r[i] == '\r';
            if i >= head.len() {
                assert(sub.text[i - head.len()] == '\r');
                assert(sub.text.contains('\r'));
            } else {
                assert(head[i] == '\r');
            }
        }
    }
    assert forall|j: int| 0 <= j && j + 1 < r.len() implies !(#[trigger] r[j] == '\n' && r[j + 1]
        == '\n') by {
        if j >= head.len() {
            assert(r[j] == sub.text[j - head.len()]);
            assert(r[j + 1] == sub.text[j - head.len() + 1]);
        } else if j == b {
            assert(r[j + 1] == sub.text[0]);
        } else {
            assert(r[j] == head[j]);
            assert(r[j + 1] == head[j + 1]);
        }
    }
    assert(r[0] == number[0]);
    if sub.text.len() > 0 {
        assert(r.last() == sub.text.last());
    } else {
        assert(r.last() == head[b]);
    }
}

/// The text of a file of two subtitles or more is the text of the first, an
/// empty line, and the text of the file of the others.
pub proof fn lemma_render_all_front(subs: Seq<SubtitleView>)
    requires
        subs.len() >= 2,
    ensures
        render_all(subs) == subs[0].rendered() + blank_line() + render_all(subs.drop_first()),
    decreases subs.len(),
{
    let rest = subs.drop_first();
    if subs.len() == 2 {
        assert(subs.drop_last() =~= seq![subs[0]]);
        assert(rest =~= seq![subs[1]]);
        assert(render_all(subs.drop_last()) == subs[0].rendered());
        assert(render_all(rest) == subs[1].rendered());
    } else {
        lemma_render_all_front(subs.drop_last());
        assert(subs.drop_last().drop_first() =~= rest.drop_last());
        assert(rest.last() == subs.last());
        assert(render_all(subs) =~= subs[0].rendered() + blank_line() + render_all(rest));
    }
}

/// The first of faithful subtitles is faithful alone, and so are the others
/// without it.
pub proof fn lemma_faithful_parts(subs: Seq<SubtitleView>)
    requires
        faithful(subs),
        subs.len() >= 1,
    ensures
        faithful(subs.drop_first()),
        faithful(subs.drop_last()),
        subs[0].representable(),
        plain_text(subs[0].text),
{
    let rest = subs.drop_first();
    assert forall|i: int| 0 <= i < rest.len() implies {
        &&& (#[trigger] rest[i]).representable()
        &&& plain_text(rest[i].text)
        &&& i < rest.len() - 1 ==> rest[i].text.len() > 0 && rest[i].text.last() != '\n'
    } by {
        assert(rest[i] == subs[i + 1]);
    }
    let front = subs.drop_last();
    assert forall|i: int| 0 <= i < front.len() implies {
        &&& (#[trigger] front[i]).representable()
        &&& plain_text(front[i].text)
        &&& i < front.len() - 1 ==> front[i].text.len() > 0 && front[i].text.last() != '\n'
    } by {
        assert(front[i] == subs[i]);
    }
}

/// The text of a file of faithful subtitles holds no carriage return, and
/// begins with a digit unless it is empty.
pub proof fn lemma_render_all_chars(subs: Seq<SubtitleView>)
    requires
        faithful(subs),
    ensures
        !render_all(subs).contains('\r'),
        subs.len() == 0 ==> render_all(subs).len() == 0,
        subs.len() > 0 ==> render_all(subs).len() > 0 && is_digit(render_all(subs)[0]),
    decreases subs.len(),
{
    let r = render_all(subs);
    if subs.len() == 1 {
        lemma_rendered_subtitle(subs[0]);
    } else if subs.len() >= 2 {
        let first = subs[0].rendered();
        let rest = render_all(subs.drop_first());
        lemma_faithful_parts(subs);
        lemma_render_all_front(subs);
        lemma_rendered_subtitle(subs[0]);
        lemma_render_all_chars(subs.drop_first());
        assert(r[0] == first[0]);
        if r.contains('\r') {
            let i = choose|i: int| 0 <= i < r.len() && r[i] == '\r';
            if i < first.len() {
                assert(first[i] == '\r');
            } else if i < first.len() + 2 {
                assert(blank_line()[i - first.len()] == '\r');
            } else {
                assert(rest[i - first.len() - 2] == '\r');
            }
        }
    }
}

/// A text that begins with a digit and holds no carriage return is what
/// `normalize` leaves of it, and so is the empty text.
pub proof fn lemma_normalize_keeps(s: Seq<char>)
    requires
        !s.contains('\r'),
        s.len() == 0 || is_digit(s[0]),
    ensures
        normalize(s) == s,
{
    lemma_trim_start_keeps(s, byte_order_mark());
    lemma_without_keeps(s, '\r');
}

/// A text that holds a digit holds a letter or a number.
pub proof fn lemma_digit_is_alphanumeric(s: Seq<char>, i: int)
    requires
        0 <= i < s.len(),
        is_digit(s[i]),
    ensures
        has_alphanumeric(s),
{
    assert(is_alphanumeric(s[i]));
}

/// A text without an empty line that holds a digit is its own and only
/// chunk, and the empty text has no chunk.
pub proof fn lemma_chunks_of_one(s: Seq<char>)
    requires
        no_blank_line(s),
        s.len() == 0 || is_digit(s[0]),
    ensures
        chunks(s) == if s.len() == 0 {
            Seq::<Seq<char>>::empty()
        } else {
            seq![s]
        },
{
    lemma_no_blank_line(s);
    lemma_find_none(s, blank_line());
    lemma_chunks_of_last_piece(s);
    if s.len() > 0 {
        lemma_digit_is_alphanumeric(s, 0);
    }
}

/// A text that begins with a digit, holds no empty line and does not end
/// with a line feed is the first chunk of itself followed by an empty line
/// and more, and the other chunks are those of what follows.
pub proof fn lemma_chunks_of_more(first: Seq<char>, rest: Seq<char>)
    requires
        no_blank_line(first),
        first.len() > 0,
        is_digit(first[0]),
        first.last() != '\n',
    ensures
        chunks(first + blank_line() + rest) == seq![first] + chunks(rest),
{
    let r = first + blank_line() + rest;
    let i = first.len() as int;
    assert(blank_line().len() == 2);
    assert(r.subrange(i, i + 2) =~= blank_line());
    assert forall|j: int| 0 <= j < i implies !occurs_at(r, blank_line(), j) by {
        lemma_occurs_at_pair(r, '\n', '\n', j);
        assert(r[j] == first[j]);
        if j + 1 < i {
            assert(r[j + 1] == first[j + 1]);
        } else {
            assert(first[j] == first.last());
        }
    }
    lemma_find_is(r, blank_line(), i);
    lemma_chunks_of_first_piece(r, i);
    assert(r.take(i) =~= first);
    assert(r.skip(i + 2) =~= rest);
    lemma_digit_is_alphanumeric(first, 0);
}

/// The chunks of the text of a file of faithful subtitles are the texts of
/// the subtitles.
pub proof fn lemma_chunks_of_rendered(subs: Seq<SubtitleView>)
    requires
        faithful(subs),
    ensures
        chunks(render_all(subs)) == rendered_each(subs),
    decreases subs.len(),
{
    let r = render_all(subs);
    if subs.len() == 0 {
        lemma_chunks_of_one(r);
        assert(rendered_each(subs) =~= Seq::<Seq<char>>::empty());
    } else if subs.len() == 1 {
        lemma_rendered_subtitle(subs[0]);
        lemma_chunks_of_one(r);
        assert(rendered_each(subs) =~= seq![r]);
    } else {
        let first = subs[0].rendered();
        let others = subs.drop_first();
        lemma_faithful_parts(subs);
        lemma_render_all_front(subs);
        lemma_rendered_subtitle(subs[0]);
        lemma_chunks_of_rendered(others);
        lemma_chunks_of_more(first, render_all(others));
        assert(rendered_each(subs) =~= seq![first] + rendered_each(others));
    }
}

/// The texts of subtitles are parsed, one by one, as the subtitles.
pub proof fn lemma_parse_chunks_of_rendered(subs: Seq<SubtitleView>)
    requires
        forall|i: int| 0 <= i < subs.len() ==> (#[trigger] subs[i]).representable(),
    ensures
        parse_chunks(rendered_each(subs)) == Ok::<Seq<SubtitleView>, ParsingError>(subs),
    decreases subs.len(),
{
    let texts = rendered_each(subs);
    if subs.len() == 0 {
        assert(subs =~= Seq::<SubtitleView>::empty());
    } else {
        let front = subs.drop_last();
        assert forall|i: int| 0 <= i < front.len() implies (#[trigger] front[i]).representable() by {
            assert(front[i] == subs[i]);
        }
        lemma_parse_chunks_of_rendered(front);
        assert(texts.drop_last() =~= rendered_each(front));
        assert(texts.last() == subs.last().rendered());
        assert(subs.last() == subs[subs.len() - 1]);
        lemma_parse_rendered_subtitle(subs.last());
        assert(front.push(subs.last()) =~= subs);
    }
}

/// Parsing the text of a file of faithful subtitles gives the subtitles
/// back.
pub proof fn lemma_parse_rendered_document(subs: Seq<SubtitleView>)
    requires
        faithful(subs),
    ensures
        parse_document(render_all(subs)) == Ok::<Seq<SubtitleView>, ParsingError>(subs),
{
    lemma_render_all_chars(subs);
    lemma_normalize_keeps(render_all(subs));
    lemma_chunks_of_rendered(subs);
    lemma_parse_chunks_of_rendered(subs);
}

/// What precedes the first empty line of a text holds no empty line and
/// does not end with a line feed.
pub proof fn lemma_before_first_blank_line(s: Seq<char>, i: int)
    requires
        find(s, blank_line()) == Some(i),
    ensures
        0 <= i,
        i + 2 <= s.len(),
        no_blank_line(s.take(i)),
        i > 0 ==> s.take(i).last() != '\n',
{
    lemma_find(s, blank_line());
    let head = s.take(i);
    lemma_occurs_at_pair(s, '\n', '\n', i);
    assert forall|j: int| 0 <= j && j + 1 < head.len() implies !(#[trigger] head[j] == '\n'
        && head[j + 1] == '\n') by {
        lemma_occurs_at_pair(s, '\n', '\n', j);
        assert(head[j] == s[j] && head[j + 1] == s[j + 1]);
    }
    if i > 0 {
        lemma_occurs_at_pair(s, '\n', '\n', i - 1);
        assert(head.last() == s[i - 1]);
    }
}

/// Whether each chunk is taken from `s`, holds no empty line, and, unless it
/// is the last, does not end with a line feed.
pub open spec fn separate(s: Seq<char>, chunks: Seq<Seq<char>>) -> bool {
    forall|k: int|
        0 <= k < chunks.len() ==> {
            &&& no_blank_line(#[trigger] chunks[k])
            &&& chunks[k].len() > 0
            &&& forall|c: char| chunks[k].contains(c) ==> s.contains(c)
            &&& k < chunks.len() - 1 ==> chunks[k].last() != '\n'
        }
}

/// The chunks of a text are separate.
pub proof fn lemma_chunks_are_separate(s: Seq<char>)
    ensures
        separate(s, chunks(s)),
    decreases s.len(),
{
    lemma_find(s, blank_line());
    match find(s, blank_line()) {
        None => {
            lemma_chunks_of_last_piece(s);
            if has_alphanumeric(s) {
                lemma_no_blank_line(s);
                assert(chunks(s)[0] == s);
            }
        },
        Some(i) => {
            lemma_chunks_of_first_piece(s, i);
            lemma_before_first_blank_line(s, i);
            let head = s.take(i);
            let rest = s.skip(i + 2);
            lemma_chunks_are_separate(rest);
            let all = chunks(s);
            let more = chunks(rest);
            let shift: int = if has_alphanumeric(head) {
                1
            } else {
                0
            };
            assert forall|c: char| head.contains(c) implies s.contains(c) by {
                let j = choose|j: int| 0 <= j < head.len() && head[j] == c;
                assert(s[j] == c);
            }
            assert forall|c: char| rest.contains(c) implies s.contains(c) by {
                let j = choose|j: int| 0 <= j < rest.len() && rest[j] == c;
                assert(s[j + i + 2] == c);
            }
            assert forall|k: int| 0 <= k < all.len() implies {
                &&& no_blank_line(#[trigger] all[k])
                &&& all[k].len() > 0
                &&& forall|c: char| all[k].contains(c) ==> s.contains(c)
                &&& k < all.len() - 1 ==> all[k].last() != '\n'
            } by {
                if k < shift {
                    assert(all[k] == head);
                } else {
                    assert(all[k] == more[k - shift]);
                }
            }
        },
    }
}

/// What follows a line feed in a text without a carriage return and without
/// an empty line is a plain text, and ends as the text ends.
pub proof fn lemma_suffix_is_plain(s: Seq<char>, p: int)
    requires
        1 <= p <= s.len(),
        s[p - 1] == '\n',
        !s.contains('\r'),
        no_blank_line(s),
    ensures
        plain_text(s.skip(p)),
        s.last() != '\n' ==> s.skip(p).len() > 0 && s.skip(p).last() == s.last(),
{
    let t = s.skip(p);
    if t.contains('\r') {
        let j = choose|j: int| 0 <= j < t.len() && t[j] == '\r';
        assert(s[p + j] == '\r');
    }
    assert forall|j: int| 0 <= j && j + 1 < t.len() implies !(#[trigger] t[j] == '\n' && t[j + 1]
        == '\n') by {
        assert(t[j] == s[p + j] && t[j + 1] == s[p + j + 1]);
    }
    if t.len() > 0 {
        assert(t[0] == s[p]);
        assert(!(s[p - 1] == '\n' && s[p] == '\n'));
        assert(t.last() == s.last());
    } else {
        assert(s.last() == s[p - 1]);
    }
}

/// The text of a subtitle that was parsed stands in what was parsed, right
/// behind a line feed.
pub proof fn lemma_parsed_text_is_suffix(s: Seq<char>) -> (p: int)
    requires
        parse_subtitle(s) is Ok,
    ensures
        1 <= p <= s.len(),
        s[p - 1] == '\n',
        parse_subtitle(s)->Ok_0.text == s.skip(p),
        parse_subtitle(s)->Ok_0.representable(),
{
    let k = leading(s, '\n') as int;
    lemma_trim_start(s, '\n');
    let t = s.skip(k);
    assert(line_feed().len() == 1 && line_feed()[0] == '\n');
    lemma_find(t, line_feed());
    let i = find(t, line_feed())->0;
    assert(t.subrange(i, i + 1)[0] == t[i]);
    let after_num = t.skip(i + 1);
    lemma_find(after_num, line_feed());
    let m = find(after_num, line_feed())->0;
    assert(after_num.subrange(m, m + 1)[0] == after_num[m]);
    let text = after_num.skip(m + 1);
    let p = k + i + 1 + m + 1;
    assert(text =~= s.skip(p));
    assert(s[p - 1] == after_num[m]);
    let (time_line, _) = cut(after_num, line_feed());
    let (start_text, after_arrow) = cut(time_line, crate::subtitle::arrow());
    lemma_parsed_time_is_representable(start_text);
    lemma_parsed_time_is_representable(cut(after_arrow->0, crate::subtitle::space()).0);
    p
}

/// A subtitle parsed from a chunk without a carriage return and without an
/// empty line has a plain text, which is not empty and does not end with a
/// line feed if the chunk does not end with one.
pub proof fn lemma_parsed_subtitle_is_plain(s: Seq<char>)
    requires
        parse_subtitle(s) is Ok,
        !s.contains('\r'),
        no_blank_line(s),
    ensures
        parse_subtitle(s)->Ok_0.representable(),
        plain_text(parse_subtitle(s)->Ok_0.text),
        s.last() != '\n' ==> parse_subtitle(s)->Ok_0.text.len() > 0 && parse_subtitle(
            s,
        )->Ok_0.text.last() != '\n',
{
    let p = lemma_parsed_text_is_suffix(s);
    lemma_suffix_is_plain(s, p);
}

/// Chunks that are parsed give as many subtitles, each parsed from the chunk
/// in its place.
pub proof fn lemma_parse_chunks_each(chunks: Seq<Seq<char>>)
    requires
        parse_chunks(chunks) is Ok,
    ensures
        parse_chunks(chunks)->Ok_0.len() == chunks.len(),
        forall|k: int|
            0 <= k < chunks.len() ==> parse_subtitle(#[trigger] chunks[k]) == Ok::<
                SubtitleView,
                ParsingError,
            >(parse_chunks(chunks)->Ok_0[k]),
    decreases chunks.len(),
{
    if chunks.len() > 0 {
        lemma_parse_chunks_each(chunks.drop_last());
        let subs = parse_chunks(chunks)->Ok_0;
        let front = parse_chunks(chunks.drop_last())->Ok_0;
        assert forall|k: int| 0 <= k < chunks.len() implies parse_subtitle(#[trigger] chunks[k])
            == Ok::<SubtitleView, ParsingError>(subs[k]) by {
            if k < chunks.len() - 1 {
                assert(chunks.drop_last()[k] == chunks[k]);
                assert(subs[k] == front[k]);
            }
        }
    }
}

/// The subtitles parsed from a file are faithful.
pub proof fn lemma_parsed_document_is_faithful(s: Seq<char>)
    requires
        parse_document(s) is Ok,
    ensures
        faithful(parse_document(s)->Ok_0),
{
    let clean = normalize(s);
    let all = chunks(clean);
    let subs = parse_document(s)->Ok_0;
    lemma_without_holds_none(trim_start(s, byte_order_mark()), '\r');
    lemma_chunks_are_separate(clean);
    lemma_parse_chunks_each(all);
    assert forall|i: int| 0 <= i < subs.len() implies {
        &&& (#[trigger] subs[i]).representable()
        &&& plain_text(subs[i].text)
        &&& i < subs.len() - 1 ==> subs[i].text.len() > 0 && subs[i].text.last() != '\n'
    } by {
        assert(no_blank_line(all[i]));
        assert(!all[i].contains('\r'));
        lemma_parsed_subtitle_is_plain(all[i]);
    }
}

/// Parsing the text of what was parsed from a file gives the same subtitles
/// again.
pub proof fn lemma_document_round_trip(s: Seq<char>)
    requires
        parse_document(s) is Ok,
    ensures
        parse_document(render_all(parse_document(s)->Ok_0)) == parse_document(s),
{
    lemma_parsed_document_is_faithful(s);
    lemma_parse_rendered_document(parse_document(s)->Ok_0);
}

/// The empty text is the file of no subtitle, both ways.
pub proof fn lemma_empty_document()
    ensures
        parse_document(Seq::<char>::empty()) == Ok::<Seq<SubtitleView>, ParsingError>(
            Seq::<SubtitleView>::empty(),
        ),
        render_all(Seq::<SubtitleView>::empty()) == Seq::<char>::empty(),
{
    let none = Seq::<SubtitleView>::empty();
    assert(faithful(none));
    lemma_parse_rendered_document(none);
}

} // verus!
