use srtlib::{Subtitle, Subtitles, Timestamp};

fn entry(num: usize, start_seconds: u8, end_seconds: u8, text: &str) -> Subtitle {
    Subtitle::new(
        num,
        Timestamp::new(0, 0, start_seconds, 0),
        Timestamp::new(0, 0, end_seconds, 0),
        text.to_string(),
    )
}

fn texts(subs: &Subtitles) -> Vec<String> {
    let mut out = Vec::new();
    let mut i = 0;
    while let Some(sub) = subs.get(i) {
        out.push(sub.text.clone());
        i += 1;
    }
    out
}

#[test]
fn sort_subtitles() {
    let subs = "2\n00:00:01,500 --> 00:00:02,500\nThis is a subtitle!\n\n\
                1\n00:00:00,000 --> 00:00:01,000\nHello world!\nExtra!\n\n\
                3\n00:00:02,500 --> 00:00:03,000\nFinal subtitle.\n";

    let mut parsed_subs = Subtitles::parse_from_str(subs.to_string()).unwrap();
    parsed_subs.sort();

    let true_sort = "1\n00:00:00,000 --> 00:00:01,000\nHello world!\nExtra!\n\n\
                     2\n00:00:01,500 --> 00:00:02,500\nThis is a subtitle!\n\n\
                     3\n00:00:02,500 --> 00:00:03,000\nFinal subtitle.\n";
    let sorted_subs = Subtitles::parse_from_str(true_sort.to_string()).unwrap();

    assert_eq!(parsed_subs, sorted_subs);
}

#[test]
fn sort_by_number_whatever_the_times() {
    let mut subs = Subtitles::new_from_vec(vec![
        entry(2, 0, 1, "two"),
        entry(1, 50, 51, "one"),
        entry(3, 20, 21, "three"),
    ]);
    subs.sort();
    assert_eq!(texts(&subs), ["one", "two", "three"]);
}

#[test]
fn sort_breaks_ties_by_start_then_end() {
    let mut subs = Subtitles::new_from_vec(vec![
        entry(2, 9, 10, "d"),
        entry(2, 3, 9, "c"),
        entry(2, 3, 4, "b"),
        entry(1, 30, 40, "a"),
    ]);
    subs.sort();
    assert_eq!(texts(&subs), ["a", "b", "c", "d"]);
}

#[test]
fn sort_keeps_full_ties_in_their_order() {
    let mut subs = Subtitles::new_from_vec(vec![
        entry(5, 1, 2, "zebra"),
        entry(4, 1, 2, "last of four"),
        entry(5, 1, 2, "apple"),
        entry(4, 1, 2, "a four"),
        entry(5, 1, 2, "mango"),
        entry(1, 1, 2, "one"),
    ]);
    subs.sort();
    assert_eq!(
        texts(&subs),
        ["one", "last of four", "a four", "zebra", "apple", "mango"]
    );
}

#[test]
fn sort_of_few_and_of_sorted() {
    let mut none = Subtitles::new();
    none.sort();
    assert_eq!(none.len(), 0);
    let mut one = Subtitles::new_from_vec(vec![entry(9, 0, 1, "only")]);
    one.sort();
    assert_eq!(texts(&one), ["only"]);
    let mut sorted = Subtitles::new_from_vec(vec![
        entry(1, 0, 1, "a"),
        entry(2, 0, 1, "b"),
        entry(3, 0, 1, "c"),
    ]);
    sorted.sort();
    assert_eq!(texts(&sorted), ["a", "b", "c"]);
    let mut reversed = Subtitles::new_from_vec(vec![
        entry(4, 0, 1, "d"),
        entry(3, 0, 1, "c"),
        entry(2, 0, 1, "b"),
        entry(1, 0, 1, "a"),
    ]);
    reversed.sort();
    assert_eq!(texts(&reversed), ["a", "b", "c", "d"]);
    assert_eq!(reversed.len(), 4);
}

#[test]
fn sort_then_render() {
    let text = "3\n00:00:05,000 --> 00:00:07,200\nFoobar\n\n\
                1\n00:00:00,000 --> 00:00:02,400\nHello\n\n\
                2\n00:00:03,000 --> 00:00:05,000\nWorld\n\n";
    let mut subs = Subtitles::parse_from_str(text.to_string()).unwrap();
    subs.sort();
    assert_eq!(texts(&subs), ["Hello", "World", "Foobar"]);
    assert_eq!(
        subs.to_string(),
        "1\n00:00:00,000 --> 00:00:02,400\nHello\n\n2\n00:00:03,000 --> 00:00:05,000\nWorld\n\n3\n00:00:05,000 --> 00:00:07,200\nFoobar"
    );
}
