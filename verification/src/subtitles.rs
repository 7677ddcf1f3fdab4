//! A collection of subtitles, as a subtitle file holds them.

use crate::encoding::{
    decode_text, decoded, encode_text, encoded, encoding_for_label, MAX_CODEC_INPUT,
};
use crate::error::ParsingError;
use crate::order::{
    keeps_ties_in_order, lemma_move_keeps_all, lemma_move_keeps_ties, lemma_order_is_transitive,
    sorted, ties,
};
use crate::subtitle::{parse_subtitle, Subtitle, SubtitleView};
use crate::text::{
    chars_of, find, find_first, has_alphanumeric, holds_alphanumeric, lemma_find, remove_char,
    skip_leading, split, split_terminator, trim_start, without,
};
use vstd::prelude::*;
use vstd::slice::slice_subrange;
use vstd::string::StringExecFns;
use vstd::utf8::encode_utf8;

verus! {

/// The empty line between two subtitles: two line feeds.
pub open spec fn blank_line() -> Seq<char> {
    seq!['\n', '\n']
}

/// The byte order mark that some files begin with.
pub open spec fn byte_order_mark() -> char {
    '\u{feff}'
}

/// The subtitles of `subs` as mathematical values.
pub open spec fn views(subs: Seq<Subtitle>) -> Seq<SubtitleView> {
    subs.map_values(|s: Subtitle| s@)
}

/// The text of a file: the texts of the subtitles with an empty line between
/// each two, and nothing before the first or behind the last.
pub open spec fn render_all(subs: Seq<SubtitleView>) -> Seq<char>
    decreases subs.len(),
{
    if subs.len() == 0 {
        Seq::empty()
    } else if subs.len() == 1 {
        subs[0].rendered()
    } else {
        render_all(subs.drop_last()) + blank_line() + subs.last().rendered()
    }
}

/// The text of a file without its leading byte order marks and without any
/// carriage return.
pub open spec fn normalize(s: Seq<char>) -> Seq<char> {
    without(trim_start(s, byte_order_mark()), '\r')
}

/// The test that a chunk passes if it holds a letter or a number.
pub open spec fn worth_parsing() -> spec_fn(Seq<char>) -> bool {
    |chunk: Seq<char>| has_alphanumeric(chunk)
}

/// The chunks of a normalized text that are parsed as subtitles: what stands
/// between its empty lines, but for the chunks without a letter or a number.
pub open spec fn chunks(s: Seq<char>) -> Seq<Seq<char>> {
    split_terminator(s, blank_line()).filter(worth_parsing())
}

/// The subtitles that the chunks stand for, in order, or the failure of the
/// first chunk that stands for none.
pub open spec fn parse_chunks(chunks: Seq<Seq<char>>) -> Result<Seq<SubtitleView>, ParsingError>
    decreases chunks.len(),
{
    if chunks.len() == 0 {
        Ok(Seq::empty())
    } else {
        match parse_chunks(chunks.drop_last()) {
            Err(e) => Err(e),
            Ok(subs) => match parse_subtitle(chunks.last()) {
                Err(e) => Err(e),
                Ok(sub) => Ok(subs.push(sub)),
            },
        }
    }
}

/// The subtitles that the text of a file stands for, or the first failure.
pub open spec fn parse_document(s: Seq<char>) -> Result<Seq<SubtitleView>, ParsingError> {
    parse_chunks(chunks(normalize(s)))
}

/// A failure among the first chunks is the failure of the whole.
pub proof fn lemma_parse_chunks_fails(first: Seq<Seq<char>>, more: Seq<Seq<char>>)
    requires
        parse_chunks(first) is Err,
    ensures
        parse_chunks(first + more) == parse_chunks(first),
    decreases more.len(),
{
    if more.len() == 0 {
        assert(first + more =~= first);
    } else {
        lemma_parse_chunks_fails(first, more.drop_last());
        assert((first + more).drop_last() =~= first + more.drop_last());
    }
}

/// Parsing one more chunk after chunks that were parsed adds its subtitle,
/// or fails as it fails.
pub proof fn lemma_parse_chunks_push(first: Seq<Seq<char>>, chunk: Seq<char>)
    requires
        parse_chunks(first) is Ok,
    ensures
        parse_chunks(first.push(chunk)) == match parse_subtitle(chunk) {
            Err(e) => Err::<Seq<SubtitleView>, ParsingError>(e),
            Ok(sub) => Ok(parse_chunks(first)->Ok_0.push(sub)),
        },
{
    assert(first.push(chunk).drop_last() =~= first);
}

/// The one piece of a text without an empty line is a chunk if it holds a
/// letter or a number.
pub proof fn lemma_chunks_of_last_piece(s: Seq<char>)
    requires
        find(s, blank_line()) is None,
    ensures
        chunks(s) == if has_alphanumeric(s) {
            seq![s]
        } else {
            Seq::<Seq<char>>::empty()
        },
{
    let pieces = split(s, blank_line());
    assert(pieces =~= Seq::<Seq<char>>::empty().push(s));
    Seq::<Seq<char>>::empty().lemma_filter_push(s, worth_parsing());
    assert(Seq::<Seq<char>>::empty().filter(worth_parsing()) =~= Seq::<Seq<char>>::empty()) by {
        reveal(Seq::filter);
    }
    if s.len() == 0 {
        assert(!has_alphanumeric(s));
        assert(pieces.drop_last() =~= Seq::<Seq<char>>::empty());
    }
    assert(seq![s] =~= Seq::<Seq<char>>::empty().push(s));
}

/// The chunks of a text with an empty line at index `i`: what stands before
/// the empty line, if it holds a letter or a number, and then the chunks of
/// what follows the empty line.
pub proof fn lemma_chunks_of_first_piece(s: Seq<char>, i: int)
    requires
        find(s, blank_line()) == Some(i),
    ensures
        0 <= i,
        i + 2 <= s.len(),
        chunks(s) == if has_alphanumeric(s.take(i)) {
            seq![s.take(i)] + chunks(s.skip(i + 2))
        } else {
            chunks(s.skip(i + 2))
        },
{
    lemma_find(s, blank_line());
    let head = s.take(i);
    let rest = s.skip(i + 2);
    let more = split(rest, blank_line());
    let pieces = split(s, blank_line());
    assert(pieces == seq![head] + more);
    lemma_split_is_not_empty(rest, blank_line());
    // The last piece of the text is the last piece of what follows the
    // empty line, so both have it dropped or both keep it.
    assert(pieces.last() == more.last());
    assert(pieces.drop_last() =~= seq![head] + more.drop_last());
    Seq::filter_distributes_over_add(seq![head], more, worth_parsing());
    Seq::filter_distributes_over_add(seq![head], more.drop_last(), worth_parsing());
    Seq::<Seq<char>>::empty().lemma_filter_push(head, worth_parsing());
    assert(Seq::<Seq<char>>::empty().filter(worth_parsing()) =~= Seq::<Seq<char>>::empty()) by {
        reveal(Seq::filter);
    }
    assert(seq![head] =~= Seq::<Seq<char>>::empty().push(head));
    if !has_alphanumeric(head) {
        assert(seq![head].filter(worth_parsing()) + chunks(rest) =~= chunks(rest));
    }
}

/// Splitting gives at least one piece.
pub proof fn lemma_split_is_not_empty(s: Seq<char>, sep: Seq<char>)
    ensures
        split(s, sep).len() >= 1,
{
}

/// A collection of subtitles, in the order of their file.
#[derive(Debug, Clone, Eq)]
pub struct Subtitles(Vec<Subtitle>);

impl View for Subtitles {
    type V = Seq<SubtitleView>;

    closed spec fn view(&self) -> Seq<SubtitleView> {
        views(self.0@)
    }
}

impl Default for Subtitles {
    /// An empty collection.
    fn default() -> (subs: Subtitles)
        ensures
            subs@ == Seq::<SubtitleView>::empty(),
    {
        Subtitles::new()
    }
}

impl PartialEq for Subtitles {
    /// Whether the two collections hold the same subtitles in the same
    /// order.
    fn eq(&self, other: &Subtitles) -> (equal: bool) {
        if self.0.len() != other.0.len() {
            assert(self@.len() != other@.len());
            return false;
        }
        let mut i: usize = 0;
        while i < self.0.len()
            invariant
                i <= self.0.len(),
                self.0.len() == other.0.len(),
                forall|j: int| 0 <= j < i ==> self@[j] == other@[j],
            decreases self.0.len() - i,
        {
            if !(self.0[i] == other.0[i]) {
                assert(self@[i as int] != other@[i as int]);
                return false;
            }
            i += 1;
        }
        assert(self@ =~= other@);
        true
    }
}

impl vstd::std_specs::cmp::PartialEqSpecImpl for Subtitles {
    open spec fn obeys_eq_spec() -> bool {
        true
    }

    open spec fn eq_spec(&self, other: &Subtitles) -> bool {
        self@ == other@
    }
}

impl Subtitles {
    /// An empty collection.
    pub fn new() -> (subs: Subtitles)
        ensures
            subs@ == Seq::<SubtitleView>::empty(),
    {
        let subs = Subtitles(Vec::new());
        assert(subs@ =~= Seq::<SubtitleView>::empty());
        subs
    }

    /// A collection of the subtitles of `v`, in their order.
    pub fn new_from_vec(v: Vec<Subtitle>) -> (subs: Subtitles)
        ensures
            subs@ == views(v@),
    {
        Subtitles(v)
    }

    /// The subtitles as a vector.
    pub fn to_vec(self) -> (v: Vec<Subtitle>)
        ensures
            views(v@) == self@,
    {
        self.0
    }

    /// The number of subtitles.
    pub fn len(&self) -> (n: usize)
        ensures
            n == self@.len(),
    {
        self.0.len()
    }

    /// Whether there is no subtitle.
    pub fn is_empty(&self) -> (b: bool)
        ensures
            b == (self@.len() == 0),
    {
        self.0.len() == 0
    }

    /// Adds a subtitle after the others.
    pub fn push(&mut self, sub: Subtitle)
        ensures
            final(self)@ == old(self)@.push(sub@),
    {
        self.0.push(sub);
        assert(self@ =~= old(self)@.push(sub@));
    }

    /// The subtitle at index `i`, if there is one.
    pub fn get(&self, i: usize) -> (sub: Option<&Subtitle>)
        ensures
            match sub {
                Some(sub) => i < self@.len() && sub@ == self@[i as int],
                None => i >= self@.len(),
            },
    {
        if i < self.0.len() {
            Some(&self.0[i])
        } else {
            None
        }
    }

    /// The subtitle at index `i`, if there is one, to be changed in place.
    pub fn get_mut(&mut self, i: usize) -> (sub: Option<&mut Subtitle>)
        ensures
            match sub {
                Some(sub) => i < old(self)@.len() && sub@ == old(self)@[i as int] && final(self)@
                    == old(self)@.update(i as int, final(sub)@),
                None => i >= old(self)@.len() && final(self)@ == old(self)@,
            },
    {
        if i < self.0.len() {
            let sub = &mut self.0[i];
            assert(views(old(self).0@.update(i as int, *final(sub))) =~= old(self)@.update(
                i as int,
                final(sub)@,
            ));
            Some(sub)
        } else {
            None
        }
    }

    /// Sorts the subtitles by their number, then by their start, then by
    /// their end. Subtitles that tie in all three keep the order in which
    /// they stood.
    pub fn sort(&mut self)
        ensures
            sorted(final(self)@),
            keeps_ties_in_order(old(self)@, final(self)@),
            final(self)@.len() == old(self)@.len(),
            final(self)@.to_multiset() == old(self)@.to_multiset(),
    {
        let mut i: usize = 0;
        while i < self.0.len()
            invariant
                i <= self.0.len(),
                sorted(self@.take(i as int)),
                keeps_ties_in_order(old(self)@, self@),
                self@.len() == old(self)@.len(),
                self@.to_multiset() == old(self)@.to_multiset(),
            decreases self.0.len() - i,
        {
            let ghost start = self@;
            // The place of the subtitle at `i` among those before it: behind
            // the last one that it is not ordered before.
            let mut j: usize = i;
            while j > 0 && self.0[i].is_before(&self.0[j - 1])
                invariant
                    j <= i < self.0.len(),
                    self@ == start,
                    forall|m: int| j <= m < i ==> start[i as int].before(#[trigger] start[m]),
                decreases j,
            {
                j -= 1;
            }
            let sub = self.0.remove(i);
            self.0.insert(j, sub);
            proof {
                let moved = start.remove(i as int).insert(j as int, start[i as int]);
                assert(self@ =~= moved);
                lemma_move_keeps_ties(start, i as int, j as int);
                assert forall|k: SubtitleView| #[trigger]
                    self@.filter(ties(k)) == old(self)@.filter(ties(k)) by {
                    assert(moved.filter(ties(k)) == start.filter(ties(k)));
                }
                lemma_move_keeps_all(start, i as int, j as int);
                let now = moved.take(i + 1);
                assert forall|a: int, b: int| 0 <= a < b < now.len() implies !now[b].before(
                    now[a],
                ) by {
                    let was = start.take(i as int);
                    if b < j {
                        assert(now[a] == was[a] && now[b] == was[b]);
                    } else if b == j {
                        assert(now[a] == was[a]);
                        if j > 0 {
                            assert(!start[i as int].before(start[j - 1]));
                            if a < j - 1 {
                                assert(!was[j - 1].before(was[a]));
                                lemma_order_is_transitive(now[a], start[j - 1], now[b]);
                            }
                        }
                    } else if a < j {
                        assert(now[a] == was[a] && now[b] == was[b - 1]);
                    } else if a == j {
                        assert(now[b] == start[b - 1]);
                        assert(start[i as int].before(start[b - 1]));
                    } else {
                        assert(now[a] == was[a - 1] && now[b] == was[b - 1]);
                    }
                }
            }
            i += 1;
        }
        assert(self@.take(i as int) =~= self@);
    }

    /// Appends the text of the file to `out`.
    pub fn render_into(&self, out: &mut String)
        ensures
            final(out)@ == old(out)@ + render_all(self@),
    {
        let mut i: usize = 0;
        assert(old(out)@ + render_all(self@.take(0)) =~= old(out)@);
        while i < self.0.len()
            invariant
                i <= self.0.len(),
                out@ == old(out)@ + render_all(self@.take(i as int)),
            decreases self.0.len() - i,
        {
            let ghost before = self@.take(i as int);
            let ghost now = self@.take(i + 1);
            assert(now.drop_last() =~= before);
            assert(now.last() == self.0[i as int]@);
            if i > 0 {
                out.append("\n\n");
            }
            self.0[i].render_into(out);
            proof {
                reveal_strlit("\n\n");
                assert("\n\n"@ =~= blank_line());
                if i == 0 {
                    assert(before =~= Seq::<SubtitleView>::empty());
                    assert(out@ =~= old(out)@ + render_all(now));
                } else {
                    assert(out@ =~= old(out)@ + render_all(now));
                }
            }
            i += 1;
        }
        assert(self@.take(i as int) =~= self@);
    }

    /// The text of the file; the empty text for an empty collection.
    pub fn to_string(&self) -> (text: String)
        ensures
            text@ == render_all(self@),
    {
        let mut text = String::new();
        self.render_into(&mut text);
        assert(text@ =~= render_all(self@));
        text
    }

    /// Parses the chunks of a normalized text one after the other.
    fn parse_normalized(s: &[char]) -> (r: Result<Subtitles, ParsingError>)
        ensures
            match r {
                Ok(subs) => parse_chunks(chunks(s@)) == Ok::<Seq<SubtitleView>, ParsingError>(
                    subs@,
                ),
                Err(e) => parse_chunks(chunks(s@)) == Err::<Seq<SubtitleView>, ParsingError>(e),
            },
    {
        let blank: [char; 2] = ['\n', '\n'];
        assert(blank@ =~= blank_line());
        let mut subs = Subtitles::new();
        let mut rest: &[char] = s;
        let ghost mut done: Seq<Seq<char>> = Seq::empty();
        assert(done + chunks(rest@) =~= chunks(s@));
        loop
            invariant
                blank@ == blank_line(),
                chunks(s@) == done + chunks(rest@),
                parse_chunks(done) == Ok::<Seq<SubtitleView>, ParsingError>(subs@),
            decreases rest@.len(),
        {
            let found = find_first(rest, blank.as_slice());
            let chunk: &[char] = match found {
                Some(i) => slice_subrange(rest, 0, i),
                None => rest,
            };
            let ghost more: Seq<Seq<char>> = match found {
                Some(i) => chunks(rest@.skip(i + 2)),
                None => Seq::empty(),
            };
            proof {
                match found {
                    Some(i) => lemma_chunks_of_first_piece(rest@, i as int),
                    None => lemma_chunks_of_last_piece(rest@),
                }
                if has_alphanumeric(chunk@) {
                    assert(chunks(s@) =~= done.push(chunk@) + more);
                    lemma_parse_chunks_push(done, chunk@);
                } else {
                    assert(chunks(s@) =~= done + more);
                }
            }
            if holds_alphanumeric(chunk) {
                match Subtitle::parse_chars(chunk) {
                    Ok(sub) => {
                        subs.push(sub);
                    },
                    Err(e) => {
                        proof {
                            lemma_parse_chunks_fails(done.push(chunk@), more);
                        }
                        return Err(e);
                    },
                }
                proof {
                    done = done.push(chunk@);
                }
            }
            match found {
                Some(i) => {
                    let end = rest.len();
                    assert(i + 2 <= end);
                    rest = slice_subrange(rest, i + 2, end);
                },
                None => {
                    assert(done + more =~= done);
                    return Ok(subs);
                },
            }
        }
    }

    /// Parses the text of a subtitle file: subtitles with an empty line
    /// between each two.
    ///
    /// Byte order marks at the start and carriage returns anywhere are
    /// dropped before anything else. Chunks without a letter or a number
    /// are passed over. The first chunk that is no subtitle fails the whole.
    pub fn parse_from_str(input: String) -> (r: Result<Subtitles, ParsingError>)
        ensures
            match r {
                Ok(subs) => parse_document(input@) == Ok::<Seq<SubtitleView>, ParsingError>(
                    subs@,
                ),
                Err(e) => parse_document(input@) == Err::<Seq<SubtitleView>, ParsingError>(e),
            },
    {
        let chars = chars_of(input.as_str());
        let clean = remove_char(skip_leading(chars.as_slice(), '\u{feff}'), '\r');
        Subtitles::parse_normalized(clean.as_slice())
    }
    /// Parses a subtitle file from its bytes, which are text in the encoding
    /// that `encoding` names by one of the labels of the Encoding Standard.
    pub fn parse_from_bytes(bytes: &[u8], encoding: &str) -> (r: Result<Subtitles, ParsingError>)
        requires
            bytes@.len() <= MAX_CODEC_INPUT,
        ensures
            match encoding_for_label(encoding@) {
                None => r == Err::<Subtitles, ParsingError>(ParsingError::BadEncodingName),
                Some(e) => match r {
                    Ok(subs) => parse_document(decoded(e, bytes@)) == Ok::<
                        Seq<SubtitleView>,
                        ParsingError,
                    >(subs@),
                    Err(error) => parse_document(decoded(e, bytes@)) == Err::<
                        Seq<SubtitleView>,
                        ParsingError,
                    >(error),
                },
            },
    {
        match decode_text(bytes, encoding) {
            Ok(text) => Subtitles::parse_from_str(text),
            Err(_) => Err(ParsingError::BadEncodingName),
        }
    }

    /// The bytes of the file in the encoding that `encoding` names by one of
    /// the labels of the Encoding Standard.
    pub fn to_bytes(&self, encoding: &str) -> (r: Result<Vec<u8>, ParsingError>)
        requires
            encode_utf8(render_all(self@)).len() <= MAX_CODEC_INPUT,
        ensures
            match encoding_for_label(encoding@) {
                None => r == Err::<Vec<u8>, ParsingError>(ParsingError::BadEncodingName),
                Some(e) => r is Ok && r->Ok_0@ == encoded(e, render_all(self@)),
            },
    {
        let text = self.to_string();
        encode_text(text.as_str(), encoding)
    }
}

} // verus!
