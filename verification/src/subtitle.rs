//! A single subtitle: its number, the two timestamps between which it is
//! shown, and its text.

use crate::error::ParsingError;
use crate::number::{
    decimal, is_digit, lemma_decimal, parse_digits, parse_number, push_padded, IntError,
};
use crate::text::{
    chars_of, cut, cut_at, lemma_cut_after, lemma_cut_nowhere, lemma_trim_start_keeps,
    skip_leading, string_of, trim_start,
};
use crate::timestamp::{
    lemma_digits_hold_no_separator, lemma_parse_rendered, lemma_rendered_chars, parse_time, Time,
    Timestamp,
};
use std::cmp::Ordering;
use vstd::prelude::*;
use vstd::string::StringExecFns;

verus! {

/// The line feed that ends the number line and the time line.
pub open spec fn line_feed() -> Seq<char> {
    seq!['\n']
}

/// The arrow between the two timestamps of a time line.
pub open spec fn arrow() -> Seq<char> {
    seq![' ', '-', '-', '>', ' ']
}

/// The space that ends the second timestamp where more follows on the line.
pub open spec fn space() -> Seq<char> {
    seq![' ']
}

/// A subtitle as mathematical values.
pub struct SubtitleView {
    pub num: nat,
    pub start: Time,
    pub end: Time,
    pub text: Seq<char>,
}

impl SubtitleView {
    /// The text of the subtitle: the number on a line, the two timestamps
    /// with an arrow between them on the next, and the text after that,
    /// with nothing behind it.
    pub open spec fn rendered(self) -> Seq<char> {
        decimal(self.num) + line_feed() + self.start.rendered() + arrow() + self.end.rendered()
            + line_feed() + self.text
    }

    /// Whether `self` is ordered before `other`: by the number, then by the
    /// start, then by the end. The text plays no part.
    pub open spec fn before(self, other: SubtitleView) -> bool {
        ||| self.num < other.num
        ||| self.num == other.num && self.start.before(other.start)
        ||| self.num == other.num && self.start == other.start && self.end.before(other.end)
    }

    /// Whether the number and the timestamps are within what a `Subtitle`
    /// can hold.
    pub open spec fn representable(self) -> bool {
        self.num <= usize::MAX && self.start.representable() && self.end.representable()
    }

    /// The text of the subtitle with `extra` behind the end on the time
    /// line.
    pub open spec fn rendered_with(self, extra: Seq<char>) -> Seq<char> {
        decimal(self.num) + line_feed() + self.start.rendered() + arrow() + self.end.rendered()
            + extra + line_feed() + self.text
    }

    /// Whether neither of the two is ordered before the other.
    pub open spec fn ties_with(self, other: SubtitleView) -> bool {
        self.num == other.num && self.start == other.start && self.end == other.end
    }
}

/// The subtitle that `s` stands for, or the reason why it stands for none.
///
/// Leading line feeds are dropped. The first line is the number. The second
/// line holds the start, the arrow, and the end, which stops at the first
/// space after the arrow: what follows on the line is dropped. All that
/// follows the second line is the text. The number is read first, then the
/// start, then the end, and a failure to read one is the result; the number
/// is attached where the second line, the arrow or the text is missing.
pub open spec fn parse_subtitle(s: Seq<char>) -> Result<SubtitleView, ParsingError> {
    let (num_text, after_num) = cut(trim_start(s, '\n'), line_feed());
    match parse_number(num_text, usize::MAX as nat) {
        Err(e) => Err(ParsingError::ParseIntError(e)),
        Ok(num) => match after_num {
            None => Err(ParsingError::BadSubtitleStructure(num as usize)),
            Some(after_num) => {
                let (time_line, after_line) = cut(after_num, line_feed());
                let (start_text, after_arrow) = cut(time_line, arrow());
                match parse_time(start_text) {
                    Err(e) => Err(e),
                    Ok(start) => match after_arrow {
                        None => Err(ParsingError::BadSubtitleStructure(num as usize)),
                        Some(after_arrow) => match parse_time(cut(after_arrow, space()).0) {
                            Err(e) => Err(e),
                            Ok(end) => match after_line {
                                None => Err(ParsingError::BadSubtitleStructure(num as usize)),
                                Some(text) => Ok(SubtitleView { num, start, end, text }),
                            },
                        },
                    },
                }
            },
        },
    }
}

/// The text of a time holds neither a space nor a line break.
pub proof fn lemma_time_holds_no_separator(t: Time)
    requires
        t.representable(),
    ensures
        !t.rendered().contains(' '),
        !t.rendered().contains('\n'),
        !t.rendered().contains('\r'),
{
    lemma_rendered_chars(t);
    let r = t.rendered();
    assert forall|c: char| c == ' ' || c == '\n' || c == '\r' implies !r.contains(c) by {
        if r.contains(c) {
            let i = choose|i: int| 0 <= i < r.len() && r[i] == c;
            assert(is_digit(r[i]) || r[i] == ':' || r[i] == ',');
        }
    }
}

/// The time line of a subtitle, with `extra` behind the end.
pub open spec fn time_line(start: Time, end: Time, extra: Seq<char>) -> Seq<char> {
    start.rendered() + arrow() + end.rendered() + extra
}

/// A time line holds no line feed, is cut at its arrow into the start and
/// the rest, and the rest up to its first space is the end.
pub proof fn lemma_time_line(start: Time, end: Time, extra: Seq<char>)
    requires
        start.representable(),
        end.representable(),
        extra.len() == 0 || extra[0] == ' ',
        !extra.contains('\n'),
    ensures
        !time_line(start, end, extra).contains('\n'),
        cut(time_line(start, end, extra), arrow()) == (
            start.rendered(),
            Some(end.rendered() + extra),
        ),
        cut(end.rendered() + extra, space()).0 == end.rendered(),
{
    let s = start.rendered();
    let e = end.rendered();
    let line = time_line(start, end, extra);
    lemma_time_holds_no_separator(start);
    lemma_time_holds_no_separator(end);
    assert(!line.contains('\n')) by {
        if line.contains('\n') {
            let i = choose|i: int| 0 <= i < line.len() && line[i] == '\n';
            if i < s.len() {
                assert(s[i] == '\n');
            } else if i < s.len() + 5 {
                assert(arrow()[i - s.len()] == '\n');
            } else if i < s.len() + 5 + e.len() {
                assert(e[i - s.len() - 5] == '\n');
            } else {
                assert(extra[i - s.len() - 5 - e.len()] == '\n');
            }
        }
    }
    assert(cut(line, arrow()) == (s, Some(e + extra))) by {
        assert(arrow()[0] == ' ');
        assert(line =~= s + arrow() + (e + extra));
        lemma_cut_after(s, arrow(), e + extra);
    }
    assert(cut(e + extra, space()).0 == e) by {
        assert(space()[0] == ' ');
        if extra.len() == 0 {
            assert(e + extra =~= e);
            lemma_cut_nowhere(e, space());
        } else {
            assert(e + extra =~= e + space() + extra.skip(1));
            lemma_cut_after(e, space(), extra.skip(1));
        }
    }
}

/// What may follow the end on the time line is dropped: a subtitle written
/// with, behind its end, a space and anything that stays on the line, is
/// parsed as the subtitle itself.
pub proof fn lemma_parse_with_trailer(sub: SubtitleView, extra: Seq<char>)
    requires
        sub.representable(),
        extra.len() == 0 || extra[0] == ' ',
        !extra.contains('\n'),
    ensures
        parse_subtitle(sub.rendered_with(extra)) == Ok::<SubtitleView, ParsingError>(sub),
{
    let number = decimal(sub.num);
    let whole = sub.rendered_with(extra);
    let line = time_line(sub.start, sub.end, extra);
    let after_num = line + line_feed() + sub.text;
    assert(line_feed()[0] == '\n');
    assert(cut(trim_start(whole, '\n'), line_feed()) == (number, Some(after_num))) by {
        lemma_decimal(sub.num);
        lemma_digits_hold_no_separator(number);
        assert(whole =~= number + line_feed() + after_num);
        assert(whole[0] == number[0]);
        assert(is_digit(number[0]));
        lemma_trim_start_keeps(whole, '\n');
        lemma_cut_after(number, line_feed(), after_num);
    }
    assert(parse_number(number, usize::MAX as nat) == Ok::<nat, IntError>(sub.num)) by {
        lemma_decimal(sub.num);
    }
    lemma_time_line(sub.start, sub.end, extra);
    assert(cut(after_num, line_feed()) == (line, Some(sub.text))) by {
        lemma_cut_after(line, line_feed(), sub.text);
    }
    assert(parse_time(sub.start.rendered()) == Ok::<Time, ParsingError>(sub.start)) by {
        lemma_parse_rendered(sub.start);
    }
    assert(parse_time(sub.end.rendered()) == Ok::<Time, ParsingError>(sub.end)) by {
        lemma_parse_rendered(sub.end);
    }
}

/// Line feeds before a subtitle change nothing of what is parsed.
pub proof fn lemma_leading_line_feed(s: Seq<char>)
    ensures
        parse_subtitle(line_feed() + s) == parse_subtitle(s),
{
    let longer = line_feed() + s;
    assert(longer[0] == '\n');
    assert(longer.skip(1) =~= s);
}

/// Parsing the text of a subtitle gives the subtitle back.
pub proof fn lemma_parse_rendered_subtitle(sub: SubtitleView)
    requires
        sub.representable(),
    ensures
        parse_subtitle(sub.rendered()) == Ok::<SubtitleView, ParsingError>(sub),
{
    let none = Seq::<char>::empty();
    assert(sub.rendered_with(none) =~= sub.rendered());
    lemma_parse_with_trailer(sub, none);
}

/// A single subtitle.
///
/// `==` holds of two subtitles with the same number, timestamps and text.
/// `<` and the other comparison operators go by the number, then the start,
/// then the end, and, unlike `compare`, by the text last.
#[derive(Debug, Clone, Eq, PartialOrd, Ord, Hash)]
pub struct Subtitle {
    /// The number of the subtitle in its file. Numbers need neither be
    /// consecutive nor differ from each other.
    pub num: usize,
    /// When the subtitle appears.
    pub start_time: Timestamp,
    /// When the subtitle disappears. Nothing keeps it after the start.
    pub end_time: Timestamp,
    /// What the subtitle says, on one line or several.
    pub text: String,
}

impl View for Subtitle {
    type V = SubtitleView;

    open spec fn view(&self) -> SubtitleView {
        SubtitleView {
            num: self.num as nat,
            start: self.start_time@,
            end: self.end_time@,
            text: self.text@,
        }
    }
}

impl PartialEq for Subtitle {
    /// Whether the two subtitles have the same number, the same timestamps
    /// and the same text.
    fn eq(&self, other: &Subtitle) -> (equal: bool) {
        proof {
            if self.start_time@ == other.start_time@ {
                self.start_time.lemma_view_injective(other.start_time);
            }
            if self.end_time@ == other.end_time@ {
                self.end_time.lemma_view_injective(other.end_time);
            }
        }
        self.num == other.num && self.start_time == other.start_time && self.end_time
            == other.end_time && self.text == other.text
    }
}

impl vstd::std_specs::cmp::PartialEqSpecImpl for Subtitle {
    open spec fn obeys_eq_spec() -> bool {
        true
    }

    open spec fn eq_spec(&self, other: &Subtitle) -> bool {
        self@ == other@
    }
}

impl Subtitle {
    /// A subtitle with the given fields, taken as they are.
    pub fn new(num: usize, start_time: Timestamp, end_time: Timestamp, text: String) -> (s:
        Subtitle)
        ensures
            s@ == (SubtitleView {
                num: num as nat,
                start: start_time@,
                end: end_time@,
                text: text@,
            }),
    {
        Subtitle { num, start_time, end_time, text }
    }

    /// Every subtitle holds a number and timestamps within their types.
    pub proof fn lemma_representable(self)
        ensures
            self@.representable(),
    {
        self.start_time.lemma_representable();
        self.end_time.lemma_representable();
    }

    /// Parsing the text of a subtitle gives the subtitle back.
    pub proof fn lemma_round_trip(self)
        ensures
            parse_subtitle(self@.rendered()) == Ok::<SubtitleView, ParsingError>(self@),
    {
        self.lemma_representable();
        lemma_parse_rendered_subtitle(self@);
    }

    /// Parses a subtitle from its characters.
    pub fn parse_chars(s: &[char]) -> (r: Result<Subtitle, ParsingError>)
        ensures
            match r {
                Ok(sub) => parse_subtitle(s@) == Ok::<SubtitleView, ParsingError>(sub@),
                Err(e) => parse_subtitle(s@) == Err::<SubtitleView, ParsingError>(e),
            },
    {
        let line_feed: [char; 1] = ['\n'];
        let arrow: [char; 5] = [' ', '-', '-', '>', ' '];
        let space: [char; 1] = [' '];
        assert(line_feed@ =~= self::line_feed());
        assert(arrow@ =~= self::arrow());
        assert(space@ =~= self::space());
        let (num_text, after_num) = cut_at(skip_leading(s, '\n'), line_feed.as_slice());
        let num = match parse_digits(num_text, usize::MAX as u64) {
            Ok(n) => n as usize,
            Err(e) => return Err(ParsingError::ParseIntError(e)),
        };
        let after_num = match after_num {
            Some(rest) => rest,
            None => return Err(ParsingError::BadSubtitleStructure(num)),
        };
        let (time_line, after_line) = cut_at(after_num, line_feed.as_slice());
        let (start_text, after_arrow) = cut_at(time_line, arrow.as_slice());
        let start_time = match Timestamp::parse_chars(start_text) {
            Ok(t) => t,
            Err(e) => return Err(e),
        };
        let after_arrow = match after_arrow {
            Some(rest) => rest,
            None => return Err(ParsingError::BadSubtitleStructure(num)),
        };
        let (end_text, _) = cut_at(after_arrow, space.as_slice());
        let end_time = match Timestamp::parse_chars(end_text) {
            Ok(t) => t,
            Err(e) => return Err(e),
        };
        let text = match after_line {
            Some(rest) => rest,
            None => return Err(ParsingError::BadSubtitleStructure(num)),
        };
        Ok(Subtitle { num, start_time, end_time, text: string_of(text) })
    }

    /// Parses a subtitle of the form `num\nstart --> end\ntext`, where more
    /// may follow the end on its line after a space, and is dropped.
    pub fn parse(input: String) -> (r: Result<Subtitle, ParsingError>)
        ensures
            match r {
                Ok(sub) => parse_subtitle(input@) == Ok::<SubtitleView, ParsingError>(sub@),
                Err(e) => parse_subtitle(input@) == Err::<SubtitleView, ParsingError>(e),
            },
    {
        let chars = chars_of(input.as_str());
        Subtitle::parse_chars(chars.as_slice())
    }

    /// Appends the text of the subtitle to `out`.
    pub fn render_into(&self, out: &mut String)
        ensures
            final(out)@ == old(out)@ + self@.rendered(),
    {
        push_padded(out, self.num as u64, 0);
        out.append("\n");
        self.start_time.render_into(out);
        out.append(" --> ");
        self.end_time.render_into(out);
        out.append("\n");
        out.append(self.text.as_str());
        proof {
            reveal_strlit("\n");
            reveal_strlit(" --> ");
            assert("\n"@ =~= line_feed());
            assert(" --> "@ =~= arrow());
            assert(out@ =~= old(out)@ + self@.rendered());
        }
    }

    /// The text of the subtitle, as in `1\n00:00:00,000 --> 00:00:01,000\nHello`.
    pub fn to_string(&self) -> (text: String)
        ensures
            text@ == self@.rendered(),
    {
        let mut text = String::new();
        self.render_into(&mut text);
        assert(text@ =~= self@.rendered());
        text
    }

    /// Moves both timestamps by `n` hours, backward where `n` is negative.
    pub fn add_hours(&mut self, n: i32)
        requires
            old(self)@.start.plus_hours(n as int).hours_fit(),
            old(self)@.end.plus_hours(n as int).hours_fit(),
        ensures
            final(self)@ == (SubtitleView {
                start: old(self)@.start.plus_hours(n as int),
                end: old(self)@.end.plus_hours(n as int),
                ..old(self)@
            }),
    {
        self.start_time.add_hours(n);
        self.end_time.add_hours(n);
    }

    /// Moves both timestamps by `n` minutes, backward where `n` is negative.
    pub fn add_minutes(&mut self, n: i32)
        requires
            old(self)@.start.plus_minutes(n as int).hours_fit(),
            old(self)@.end.plus_minutes(n as int).hours_fit(),
        ensures
            final(self)@ == (SubtitleView {
                start: old(self)@.start.plus_minutes(n as int),
                end: old(self)@.end.plus_minutes(n as int),
                ..old(self)@
            }),
    {
        self.start_time.add_minutes(n);
        self.end_time.add_minutes(n);
    }

    /// Moves both timestamps by `n` seconds, backward where `n` is negative.
    pub fn add_seconds(&mut self, n: i32)
        requires
            old(self)@.start.plus_seconds(n as int).hours_fit(),
            old(self)@.end.plus_seconds(n as int).hours_fit(),
        ensures
            final(self)@ == (SubtitleView {
                start: old(self)@.start.plus_seconds(n as int),
                end: old(self)@.end.plus_seconds(n as int),
                ..old(self)@
            }),
    {
        self.start_time.add_seconds(n);
        self.end_time.add_seconds(n);
    }

    /// Moves both timestamps by `n` milliseconds, backward where `n` is
    /// negative.
    pub fn add_milliseconds(&mut self, n: i32)
        requires
            old(self)@.start.plus_milliseconds(n as int).hours_fit(),
            old(self)@.end.plus_milliseconds(n as int).hours_fit(),
        ensures
            final(self)@ == (SubtitleView {
                start: old(self)@.start.plus_milliseconds(n as int),
                end: old(self)@.end.plus_milliseconds(n as int),
                ..old(self)@
            }),
    {
        self.start_time.add_milliseconds(n);
        self.end_time.add_milliseconds(n);
    }

    /// Moves both timestamps forward by the fields of `timestamp`.
    pub fn add(&mut self, timestamp: &Timestamp)
        requires
            old(self)@.start.can_plus(timestamp@),
            old(self)@.end.can_plus(timestamp@),
        ensures
            final(self)@ == (SubtitleView {
                start: old(self)@.start.plus(timestamp@),
                end: old(self)@.end.plus(timestamp@),
                ..old(self)@
            }),
    {
        self.start_time.add(timestamp);
        self.end_time.add(timestamp);
    }

    /// Moves both timestamps backward by the fields of `timestamp`.
    pub fn sub(&mut self, timestamp: &Timestamp)
        requires
            old(self)@.start.can_minus(timestamp@),
            old(self)@.end.can_minus(timestamp@),
        ensures
            final(self)@ == (SubtitleView {
                start: old(self)@.start.minus(timestamp@),
                end: old(self)@.end.minus(timestamp@),
                ..old(self)@
            }),
    {
        self.start_time.sub(timestamp);
        self.end_time.sub(timestamp);
    }

    /// How the subtitle stands to `other`: by the number, then by the start,
    /// then by the end.
    pub fn compare(&self, other: &Subtitle) -> (o: Ordering)
        ensures
            o == Ordering::Less <==> self@.before(other@),
            o == Ordering::Greater <==> other@.before(self@),
            o == Ordering::Equal <==> self@.ties_with(other@),
    {
        if self.num != other.num {
            if self.num < other.num {
                Ordering::Less
            } else {
                Ordering::Greater
            }
        } else {
            match self.start_time.compare(&other.start_time) {
                Ordering::Equal => self.end_time.compare(&other.end_time),
                decided => decided,
            }
        }
    }

    /// Whether the subtitle is ordered before `other`.
    pub fn is_before(&self, other: &Subtitle) -> (b: bool)
        ensures
            b == self@.before(other@),
    {
        match self.compare(other) {
            Ordering::Less => true,
            _ => false,
        }
    }
}

} // verus!
