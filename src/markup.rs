//! The answer-cell decoder: one forward scan over the markup tokens of a cell,
//! collecting up to four answers, the index of the marked one, the license
//! classes of the trailing metadata line and an optional image reference.

use vstd::prelude::*;
use quick_xml::events::{BytesStart, Event};
use quick_xml::Reader;
use crate::category::LicenseClass;
use crate::text::{
    chars_of, contains, contains_exec, same_text, starts_with, starts_with_exec, trimmed_len,
    trimmed_len_exec, lemma_trimmed_len_bound,
};

verus! {

/// How many answers a question offers.
pub const POSSIBLE_ANSWERS_NUM: usize = 4;

/// One `key="value"` pair of a tag: its key, then its value.
pub struct Attribute(pub String, pub String);

/// An opening or self-closing tag: its name, then its readable attributes in
/// order (an attribute that could not be read is left out).
pub struct Tag(pub String, pub Vec<Attribute>);

/// One lexical unit of a cell's markup.
pub enum Token {
    /// A run of text between tags.
    Text(String),
    /// An opening tag.
    Start(Tag),
    /// A self-closing tag.
    Empty(Tag),
    /// The end of the input.
    End,
    /// A closing tag, a comment, a construct that could not be read, or any
    /// other construct the decoder ignores.
    Other,
}

/// The answers of a question and the index of the correct one.
#[derive(Clone)]
pub struct Answers {
    pub possible_answers: Vec<String>,
    pub correct_answer: usize,
}

/// What a scan has gathered so far.
pub struct Decoding {
    pub answers: Seq<Seq<char>>,
    pub correct: nat,
    pub classes: Seq<LicenseClass>,
    pub image: Option<Seq<char>>,
    pub finished: bool,
}

pub open spec fn initial_decoding() -> Decoding {
    Decoding { answers: seq![], correct: 0, classes: seq![], image: None, finished: false }
}

/// The bracketed tag literal that stands for each license class in a metadata line.
pub open spec fn class_tag(c: LicenseClass) -> Seq<char> {
    match c {
        LicenseClass::A => "«A»"@,
        LicenseClass::B => "«В»"@,
        LicenseClass::C => "«C1»"@,
        LicenseClass::C1 => "«C»"@,
        LicenseClass::D => "«D»"@,
    }
}

pub open spec fn class_if(s: Seq<char>, c: LicenseClass) -> Seq<LicenseClass> {
    if contains(s, class_tag(c)) {
        seq![c]
    } else {
        seq![]
    }
}

/// The classes whose tag literal occurs in `s`, in a fixed order.
pub open spec fn classes_in(s: Seq<char>) -> Seq<LicenseClass> {
    class_if(s, LicenseClass::A) + class_if(s, LicenseClass::B) + class_if(s, LicenseClass::C)
        + class_if(s, LicenseClass::C1) + class_if(s, LicenseClass::D)
}

/// A text that begins with `|` and, trailing white space aside, ends with `|`.
pub open spec fn is_class_line(s: Seq<char>) -> bool {
    &&& s.len() > 0
    &&& s[0] == '|'
    &&& trimmed_len(s) > 0
    &&& s[trimmed_len(s) - 1] == '|'
}

pub open spec fn is_marker_attribute(a: Attribute) -> bool {
    &&& a.0@ == "id"@
    &&& starts_with(a.1@, "correctAnswer"@)
}

/// An opening tag that marks the answer before it as the correct one.
pub open spec fn is_marker(tag: Tag) -> bool {
    &&& tag.0@ == "span"@
    &&& exists|i: int| 0 <= i < tag.1@.len() && is_marker_attribute(tag.1@[i])
}

pub open spec fn is_source_attribute(a: Attribute) -> bool {
    a.0@ == "src"@
}

/// The value of the last readable `src` attribute.
pub open spec fn last_source(attrs: Seq<Attribute>) -> Option<Seq<char>>
    decreases attrs.len(),
{
    if attrs.len() == 0 {
        None
    } else if is_source_attribute(attrs.last()) {
        Some(attrs.last().1@)
    } else {
        last_source(attrs.drop_last())
    }
}

/// A self-closing image tag that carries a source.
pub open spec fn is_image(tag: Tag) -> bool {
    tag.0@ == "img"@ && last_source(tag.1@) is Some
}

/// The effect of one token on the scan.
pub open spec fn step(d: Decoding, t: Token) -> Decoding {
    if d.finished {
        d
    } else {
        match t {
            Token::Text(s) => if d.answers.len() < POSSIBLE_ANSWERS_NUM {
                Decoding { answers: d.answers.push(s@), ..d }
            } else if is_class_line(s@) {
                Decoding { classes: d.classes + classes_in(s@), ..d }
            } else {
                d
            },
            Token::Start(tag) => if is_marker(tag) {
                Decoding { correct: d.answers.len(), ..d }
            } else {
                d
            },
            Token::Empty(tag) => if is_image(tag) {
                Decoding { image: last_source(tag.1@), ..d }
            } else {
                d
            },
            Token::End => Decoding { finished: true, ..d },
            _ => d,
        }
    }
}

/// The scan from `d` over the tokens `ts`, in order.
pub open spec fn scan(d: Decoding, ts: Seq<Token>) -> Decoding
    decreases ts.len(),
{
    if ts.len() == 0 {
        d
    } else {
        step(scan(d, ts.drop_last()), ts.last())
    }
}

/// What a whole token sequence decodes to.
pub open spec fn decode_events(ts: Seq<Token>) -> Decoding {
    scan(initial_decoding(), ts)
}

pub open spec fn image_view(image: Option<String>) -> Option<Seq<char>> {
    match image {
        Some(s) => Some(s@),
        None => None,
    }
}

/// The decoder's result holds exactly what `d` describes.
pub open spec fn agrees(r: (Answers, Vec<LicenseClass>, Option<String>), d: Decoding) -> bool {
    &&& r.0.possible_answers@.map_values(|s: String| s@) == d.answers
    &&& r.0.correct_answer == d.correct
    &&& r.1@ == d.classes
    &&& image_view(r.2) == d.image
}


/// Whether `tag` marks the answer before it as the correct one.
fn is_marker_exec(tag: &Tag) -> (r: bool)
    ensures
        r == is_marker(*tag),
{
    if !same_text(tag.0.as_str(), "span") {
        return false;
    }
    assert(tag.0@ == "span"@);
    let prefix = chars_of("correctAnswer");
    let mut i: usize = 0;
    while i < tag.1.len()
        invariant
            i <= tag.1@.len(),
            prefix@ == "correctAnswer"@,
            tag.0@ == "span"@,
            forall|j: int| 0 <= j < i ==> !is_marker_attribute(tag.1@[j]),
        decreases tag.1@.len() - i,
    {
        let a = &tag.1[i];
        if same_text(a.0.as_str(), "id") && starts_with_exec(&chars_of(a.1.as_str()), &prefix) {
            assert(is_marker_attribute(tag.1@[i as int]));
            return true;
        }
        i += 1;
    }
    false
}

/// The value of the last readable `src` attribute of `attrs`.
fn last_source_exec(attrs: &Vec<Attribute>) -> (r: Option<String>)
    ensures
        image_view(r) == last_source(attrs@),
{
    let mut found: Option<String> = None;
    let mut i: usize = 0;
    while i < attrs.len()
        invariant
            i <= attrs@.len(),
            image_view(found) == last_source(attrs@.subrange(0, i as int)),
        decreases attrs@.len() - i,
    {
        assert(attrs@.subrange(0, i + 1).drop_last() =~= attrs@.subrange(0, i as int));
        let a = &attrs[i];
        if same_text(a.0.as_str(), "src") {
            found = Some(a.1.clone());
        }
        i += 1;
    }
    assert(attrs@.subrange(0, attrs@.len() as int) =~= attrs@);
    found
}

/// Appends `c` when its tag literal occurs in `s`.
fn push_class_if(s: &Vec<char>, tag: &str, c: LicenseClass, classes: &mut Vec<LicenseClass>)
    requires
        tag@ == class_tag(c),
    ensures
        final(classes)@ == old(classes)@ + class_if(s@, c),
{
    if contains_exec(s, &chars_of(tag)) {
        classes.push(c);
        assert(final(classes)@ =~= old(classes)@ + class_if(s@, c));
    } else {
        assert(classes@ =~= old(classes)@ + class_if(s@, c));
    }
}

/// Appends the classes whose tag literal occurs in `s`, in a fixed order.
fn classes_in_exec(s: &Vec<char>, classes: &mut Vec<LicenseClass>)
    ensures
        final(classes)@ == old(classes)@ + classes_in(s@),
{
    let ghost start = classes@;
    push_class_if(s, "«A»", LicenseClass::A, classes);
    push_class_if(s, "«В»", LicenseClass::B, classes);
    push_class_if(s, "«C1»", LicenseClass::C, classes);
    push_class_if(s, "«C»", LicenseClass::C1, classes);
    push_class_if(s, "«D»", LicenseClass::D, classes);
    assert(classes@ =~= start + classes_in(s@));
}

/// Whether `s` is a metadata line.
fn is_class_line_exec(s: &Vec<char>) -> (r: bool)
    ensures
        r == is_class_line(s@),
{
    let n = trimmed_len_exec(s);
    proof {
        lemma_trimmed_len_bound(s@);
    }
    s.len() > 0 && s[0] == '|' && n > 0 && s[n - 1] == '|'
}

/// The accumulators of one scan.
struct Scanner {
    answers: Vec<String>,
    correct: usize,
    classes: Vec<LicenseClass>,
    image: Option<String>,
    finished: bool,
}

impl Scanner {
    spec fn view(&self) -> Decoding {
        Decoding {
            answers: self.answers@.map_values(|s: String| s@),
            correct: self.correct as nat,
            classes: self.classes@,
            image: image_view(self.image),
            finished: self.finished,
        }
    }

    spec fn bounded(&self) -> bool {
        self.answers@.len() <= POSSIBLE_ANSWERS_NUM && self.correct <= POSSIBLE_ANSWERS_NUM
    }

    fn new() -> (r: Scanner)
        ensures
            r.view() == initial_decoding(),
            r.bounded(),
    {
        let r = Scanner { answers: Vec::new(), correct: 0, classes: Vec::new(), image: None, finished: false };
        assert(r.view().answers =~= seq![]);
        r
    }

    fn feed(&mut self, t: &Token)
        requires
            old(self).bounded(),
        ensures
            final(self).view() == step(old(self).view(), *t),
            final(self).bounded(),
    {
        if self.finished {
            return;
        }
        match t {
            Token::Text(text) => {
                if self.answers.len() < POSSIBLE_ANSWERS_NUM {
                    self.answers.push(text.clone());
                    assert(self.answers@.map_values(|s: String| s@) =~= old(self).view().answers.push(text@));
                } else {
                    let chars = chars_of(text.as_str());
                    if is_class_line_exec(&chars) {
                        classes_in_exec(&chars, &mut self.classes);
                    }
                }
            },
            Token::Start(tag) => {
                if is_marker_exec(tag) {
                    self.correct = self.answers.len();
                }
            },
            Token::Empty(tag) => {
                if same_text(tag.0.as_str(), "img") {
                    let found = last_source_exec(&tag.1);
                    if found.is_some() {
                        self.image = found;
                    }
                }
            },
            Token::End => {
                self.finished = true;
            },
            _ => {},
        }
    }

    fn finish(self) -> (r: (Answers, Vec<LicenseClass>, Option<String>))
        ensures
            agrees(r, self.view()),
    {
        (Answers { possible_answers: self.answers, correct_answer: self.correct }, self.classes, self.image)
    }
}

/// Decodes a token sequence: the scan stops at the first `End`.
pub fn decode_tokens(tokens: &Vec<Token>) -> (r: (Answers, Vec<LicenseClass>, Option<String>))
    ensures
        agrees(r, decode_events(tokens@)),
{
    let mut scanner = Scanner::new();
    let mut i: usize = 0;
    while i < tokens.len()
        invariant
            i <= tokens@.len(),
            scanner.bounded(),
            scanner.view() == decode_events(tokens@.subrange(0, i as int)),
        decreases tokens@.len() - i,
    {
        assert(tokens@.subrange(0, i + 1).drop_last() =~= tokens@.subrange(0, i as int));
        scanner.feed(&tokens[i]);
        i += 1;
    }
    assert(tokens@.subrange(0, tokens@.len() as int) =~= tokens@);
    scanner.finish()
}


/// The tokens that quick_xml reads from `xml`, in document order, up to (not
/// including) the end of the input.
pub uninterp spec fn markup_of(xml: Seq<char>) -> Seq<Token>;

/// Relies on `quick_xml::Reader::read_event` over `quick_xml::Reader::from_str`:
/// the events of `xml` up to `Event::Eof`, with names and values taken as text;
/// attributes that quick_xml reports as unreadable are left out.
#[verifier::external_body]
fn read_markup(xml: &str) -> (r: Vec<Token>)
    ensures
        r@ == markup_of(xml@),
{
    let text = |b: &[u8]| String::from_utf8_lossy(b).into_owned();
    let tag = |s: BytesStart| Tag(text(s.name().0), s.attributes().flatten().map(|a| Attribute(text(a.key.0), text(&a.value))).collect());
    let mut reader = Reader::from_str(xml);
    let mut tokens = Vec::new();
    loop {
        tokens.push(match reader.read_event() {
            Ok(Event::Text(t)) => Token::Text(text(&t)),
            Ok(Event::Start(s)) => Token::Start(tag(s)),
            Ok(Event::Empty(s)) => Token::Empty(tag(s)),
            Ok(Event::Eof) => return tokens,
            _ => Token::Other,
        });
    }
}

/// Decodes one answer cell: the decoding of the tokens of its markup.
pub fn parse_answers(xml: &str) -> (r: (Answers, Vec<LicenseClass>, Option<String>))
    ensures
        agrees(r, decode_events(markup_of(xml@))),
{
    let tokens = read_markup(xml);
    decode_tokens(&tokens)
}

/// No token of `ts` is the end of the input.
pub open spec fn no_end(ts: Seq<Token>) -> bool {
    forall|i: int| 0 <= i < ts.len() ==> !(#[trigger] ts[i] is End)
}

/// No token of `ts` is a correct-answer marker.
pub open spec fn no_marker(ts: Seq<Token>) -> bool {
    forall|i: int| 0 <= i < ts.len() ==> !(#[trigger] ts[i] is Start && is_marker(ts[i]->Start_0))
}

/// No token of `ts` is an image tag with a source.
pub open spec fn no_image(ts: Seq<Token>) -> bool {
    forall|i: int| 0 <= i < ts.len() ==> !(#[trigger] ts[i] is Empty && is_image(ts[i]->Empty_0))
}

/// The number of text runs in `ts`.
pub open spec fn text_count(ts: Seq<Token>) -> nat
    decreases ts.len(),
{
    if ts.len() == 0 {
        0
    } else {
        text_count(ts.drop_last()) + if ts.last() is Text { 1nat } else { 0nat }
    }
}

/// Scanning two token sequences one after the other is scanning their concatenation.
pub proof fn lemma_scan_concat(d: Decoding, a: Seq<Token>, b: Seq<Token>)
    ensures
        scan(d, a + b) == scan(scan(d, a), b),
    decreases b.len(),
{
    if b.len() == 0 {
        assert(a + b =~= a);
    } else {
        assert((a + b).drop_last() =~= a + b.drop_last());
        assert((a + b).last() == b.last());
        lemma_scan_concat(d, a, b.drop_last());
    }
}

/// Before the end of the input, the answers grow by one per text run up to four.
pub proof fn lemma_answer_count(d: Decoding, ts: Seq<Token>)
    requires
        !d.finished,
        d.answers.len() <= POSSIBLE_ANSWERS_NUM,
        no_end(ts),
    ensures
        !scan(d, ts).finished,
        scan(d, ts).answers.len() == if d.answers.len() + text_count(ts) <= POSSIBLE_ANSWERS_NUM {
            d.answers.len() + text_count(ts)
        } else {
            POSSIBLE_ANSWERS_NUM as nat
        },
    decreases ts.len(),
{
    if ts.len() > 0 {
        assert(no_end(ts.drop_last())) by {
            assert forall|i: int| 0 <= i < ts.drop_last().len() implies !(#[trigger] ts.drop_last()[i] is End) by {
                assert(ts.drop_last()[i] == ts[i]);
            }
        }
        assert(!(ts[ts.len() - 1] is End));
        lemma_answer_count(d, ts.drop_last());
    }
}

/// Once four answers are collected they stay as they are.
pub proof fn lemma_answers_full(d: Decoding, ts: Seq<Token>)
    requires
        d.answers.len() == POSSIBLE_ANSWERS_NUM,
    ensures
        scan(d, ts).answers == d.answers,
    decreases ts.len(),
{
    if ts.len() > 0 {
        lemma_answers_full(d, ts.drop_last());
    }
}

/// Tokens without a marker leave the correct index alone.
pub proof fn lemma_correct_kept(d: Decoding, ts: Seq<Token>)
    requires
        no_marker(ts),
    ensures
        scan(d, ts).correct == d.correct,
    decreases ts.len(),
{
    if ts.len() > 0 {
        assert(no_marker(ts.drop_last())) by {
            assert forall|i: int| 0 <= i < ts.drop_last().len() implies !(#[trigger] ts.drop_last()[i] is Start
                && is_marker(ts.drop_last()[i]->Start_0)) by {
                assert(ts.drop_last()[i] == ts[i]);
            }
        }
        assert(!(ts[ts.len() - 1] is Start && is_marker(ts[ts.len() - 1]->Start_0)));
        lemma_correct_kept(d, ts.drop_last());
    }
}

/// Tokens without an image tag leave the image reference alone.
pub proof fn lemma_image_kept(d: Decoding, ts: Seq<Token>)
    requires
        no_image(ts),
    ensures
        scan(d, ts).image == d.image,
    decreases ts.len(),
{
    if ts.len() > 0 {
        assert(no_image(ts.drop_last())) by {
            assert forall|i: int| 0 <= i < ts.drop_last().len() implies !(#[trigger] ts.drop_last()[i] is Empty
                && is_image(ts.drop_last()[i]->Empty_0)) by {
                assert(ts.drop_last()[i] == ts[i]);
            }
        }
        assert(!(ts[ts.len() - 1] is Empty && is_image(ts[ts.len() - 1]->Empty_0)));
        lemma_image_kept(d, ts.drop_last());
    }
}

/// Four text runs, the first of them marked, are the four answers in their
/// order, and the first is the correct one, whatever follows as long as no
/// other marker does.
pub proof fn lemma_four_answers_first_marked(
    marker: Tag,
    a0: String,
    a1: String,
    a2: String,
    a3: String,
    rest: Seq<Token>,
)
    requires
        is_marker(marker),
        no_marker(rest),
    ensures
        decode_events(seq![Token::Start(marker), Token::Text(a0), Token::Text(a1), Token::Text(a2), Token::Text(a3)] + rest).answers
            == seq![a0@, a1@, a2@, a3@],
        decode_events(seq![Token::Start(marker), Token::Text(a0), Token::Text(a1), Token::Text(a2), Token::Text(a3)] + rest).correct
            == 0,
{
    let head = seq![Token::Start(marker), Token::Text(a0), Token::Text(a1), Token::Text(a2), Token::Text(a3)];
    lemma_scan_concat(initial_decoding(), head, rest);
    assert(head.drop_last().drop_last().drop_last().drop_last().drop_last() =~= seq![]);
    reveal_with_fuel(scan, 6);
    let d = scan(initial_decoding(), head);
    assert(d.answers =~= seq![a0@, a1@, a2@, a3@]);
    lemma_answers_full(d, rest);
    lemma_correct_kept(d, rest);
}

/// A marker that follows `n` text runs (with anything but the end of the
/// input among them) makes answer `n` the correct one, unless another marker
/// follows.
pub proof fn lemma_marker_index(pre: Seq<Token>, marker: Tag, post: Seq<Token>)
    requires
        no_end(pre),
        text_count(pre) < POSSIBLE_ANSWERS_NUM,
        is_marker(marker),
        no_marker(post),
    ensures
        decode_events(pre + seq![Token::Start(marker)] + post).correct == text_count(pre),
{
    let d0 = initial_decoding();
    lemma_answer_count(d0, pre);
    lemma_scan_concat(d0, pre, seq![Token::Start(marker)]);
    lemma_scan_concat(d0, pre + seq![Token::Start(marker)], post);
    assert(seq![Token::Start(marker)].drop_last() =~= seq![]);
    let dp = scan(d0, pre);
    assert(seq![Token::Start(marker)].last() == Token::Start(marker));
    assert(scan(dp, seq![Token::Start(marker)]) == step(scan(dp, seq![]), Token::Start(marker)));
    let d1 = scan(d0, pre + seq![Token::Start(marker)]);
    assert(d1.correct == text_count(pre));
    lemma_correct_kept(d1, post);
}

/// Markup without an image tag yields no image reference.
pub proof fn lemma_no_image(ts: Seq<Token>)
    requires
        no_image(ts),
    ensures
        decode_events(ts).image is None,
{
    lemma_image_kept(initial_decoding(), ts);
}

/// Markup with exactly one image tag, before the end of the input, yields
/// that tag's source.
pub proof fn lemma_one_image(pre: Seq<Token>, tag: Tag, post: Seq<Token>)
    requires
        no_end(pre),
        no_image(pre),
        is_image(tag),
        no_image(post),
    ensures
        decode_events(pre + seq![Token::Empty(tag)] + post).image == last_source(tag.1@),
{
    let d0 = initial_decoding();
    lemma_answer_count(d0, pre);
    lemma_scan_concat(d0, pre, seq![Token::Empty(tag)]);
    lemma_scan_concat(d0, pre + seq![Token::Empty(tag)], post);
    assert(seq![Token::Empty(tag)].drop_last() =~= seq![]);
    let dp = scan(d0, pre);
    assert(seq![Token::Empty(tag)].last() == Token::Empty(tag));
    assert(scan(dp, seq![Token::Empty(tag)]) == step(scan(dp, seq![]), Token::Empty(tag)));
    let d1 = scan(d0, pre + seq![Token::Empty(tag)]);
    assert(d1.image == last_source(tag.1@));
    lemma_image_kept(d1, post);
}

proof fn lemma_concat_contains(a: Seq<LicenseClass>, b: Seq<LicenseClass>, x: LicenseClass)
    ensures
        (a + b).contains(x) <==> (a.contains(x) || b.contains(x)),
{
    if a.contains(x) {
        let i = choose|i: int| 0 <= i < a.len() && a[i] == x;
        assert((a + b)[i] == x);
    }
    if b.contains(x) {
        let i = choose|i: int| 0 <= i < b.len() && b[i] == x;
        assert((a + b)[a.len() + i] == x);
    }
    if (a + b).contains(x) {
        let i = choose|i: int| 0 <= i < (a + b).len() && (a + b)[i] == x;
        if i < a.len() {
            assert(a[i] == x);
        } else {
            assert(b[i - a.len()] == x);
        }
    }
}

/// A metadata line read after the four answers adds exactly the classes
/// whose tag literal it holds, whatever their order or repetition.
pub proof fn lemma_license_classes(d: Decoding, line: String, c: LicenseClass)
    requires
        !d.finished,
        d.answers.len() == POSSIBLE_ANSWERS_NUM,
        is_class_line(line@),
    ensures
        step(d, Token::Text(line)).classes.contains(c) <==> (d.classes.contains(c) || contains(line@, class_tag(c))),
{
    let s = line@;
    let ca = class_if(s, LicenseClass::A);
    let cb = class_if(s, LicenseClass::B);
    let cc = class_if(s, LicenseClass::C);
    let cc1 = class_if(s, LicenseClass::C1);
    let cd = class_if(s, LicenseClass::D);
    lemma_concat_contains(d.classes, classes_in(s), c);
    lemma_concat_contains(ca + cb + cc + cc1, cd, c);
    lemma_concat_contains(ca + cb + cc, cc1, c);
    lemma_concat_contains(ca + cb, cc, c);
    lemma_concat_contains(ca, cb, c);
    assert(seq![LicenseClass::A].contains(c) <==> c == LicenseClass::A) by {
        if c == LicenseClass::A { assert(seq![LicenseClass::A][0] == c); }
    }
    assert(seq![LicenseClass::B].contains(c) <==> c == LicenseClass::B) by {
        if c == LicenseClass::B { assert(seq![LicenseClass::B][0] == c); }
    }
    assert(seq![LicenseClass::C].contains(c) <==> c == LicenseClass::C) by {
        if c == LicenseClass::C { assert(seq![LicenseClass::C][0] == c); }
    }
    assert(seq![LicenseClass::C1].contains(c) <==> c == LicenseClass::C1) by {
        if c == LicenseClass::C1 { assert(seq![LicenseClass::C1][0] == c); }
    }
    assert(seq![LicenseClass::D].contains(c) <==> c == LicenseClass::D) by {
        if c == LicenseClass::D { assert(seq![LicenseClass::D][0] == c); }
    }
    assert(!Seq::<LicenseClass>::empty().contains(c));
}


/// No text run of `ts` is a metadata line.
pub open spec fn no_class_line(ts: Seq<Token>) -> bool {
    forall|i: int| 0 <= i < ts.len() ==> !(#[trigger] ts[i] is Text && is_class_line(ts[i]->Text_0@))
}

/// While no more than four text runs have been read, no class is collected.
proof fn lemma_classes_empty(ts: Seq<Token>)
    requires
        no_end(ts),
        text_count(ts) <= POSSIBLE_ANSWERS_NUM,
    ensures
        scan(initial_decoding(), ts).classes == Seq::<LicenseClass>::empty(),
    decreases ts.len(),
{
    if ts.len() > 0 {
        let init = ts.drop_last();
        assert(no_end(init)) by {
            assert forall|i: int| 0 <= i < init.len() implies !(#[trigger] init[i] is End) by {
                assert(init[i] == ts[i]);
            }
        }
        assert(!(ts[ts.len() - 1] is End));
        lemma_classes_empty(init);
        lemma_answer_count(initial_decoding(), init);
    }
}

/// Tokens without a metadata line leave the classes alone.
proof fn lemma_classes_kept(d: Decoding, ts: Seq<Token>)
    requires
        no_class_line(ts),
    ensures
        scan(d, ts).classes == d.classes,
    decreases ts.len(),
{
    if ts.len() > 0 {
        let init = ts.drop_last();
        assert(no_class_line(init)) by {
            assert forall|i: int| 0 <= i < init.len() implies !(#[trigger] init[i] is Text && is_class_line(init[i]->Text_0@)) by {
                assert(init[i] == ts[i]);
            }
        }
        assert(!(ts[ts.len() - 1] is Text && is_class_line(ts[ts.len() - 1]->Text_0@)));
        lemma_classes_kept(d, init);
    }
}

/// Over a whole scan: after the four answers, a metadata line (with no other
/// after it) yields exactly the classes whose tag literal it holds, whatever
/// their order or repetition in the line.
pub proof fn lemma_class_line_scan(pre: Seq<Token>, line: String, post: Seq<Token>, c: LicenseClass)
    requires
        no_end(pre),
        text_count(pre) == POSSIBLE_ANSWERS_NUM,
        is_class_line(line@),
        no_class_line(post),
    ensures
        decode_events(pre + seq![Token::Text(line)] + post).classes.contains(c) <==> contains(line@, class_tag(c)),
{
    let d0 = initial_decoding();
    lemma_answer_count(d0, pre);
    lemma_classes_empty(pre);
    lemma_scan_concat(d0, pre, seq![Token::Text(line)]);
    lemma_scan_concat(d0, pre + seq![Token::Text(line)], post);
    assert(seq![Token::Text(line)].drop_last() =~= seq![]);
    assert(seq![Token::Text(line)].last() == Token::Text(line));
    let dp = scan(d0, pre);
    assert(scan(dp, seq![Token::Text(line)]) == step(scan(dp, seq![]), Token::Text(line)));
    lemma_license_classes(dp, line, c);
    assert(!dp.classes.contains(c));
    let d1 = scan(d0, pre + seq![Token::Text(line)]);
    lemma_classes_kept(d1, post);
}

} // verus!
