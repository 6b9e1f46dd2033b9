//! Spans of time as operators write them, such as `30s` or `5m 30s`.

use vstd::prelude::*;
use vstd::string::StringExecFns;

use crate::number::{
    all_digits, decimal, digit_value, is_digit, lemma_decimal_reads_back, value, value_of_digit,
};
use crate::text::{chars_of, is_white, is_whitespace, same_str, string_of};

verus! {

/// A span of time: whole seconds and the nanoseconds on top of them.
#[derive(Debug, Clone, Copy, PartialEq, Eq, Structural)]
pub struct Span {
    pub secs: u64,
    pub nanos: u32,
}

impl Span {
    /// The span in nanoseconds.
    pub open spec fn total(self) -> nat {
        self.secs as nat * 1_000_000_000 + self.nanos as nat
    }

    pub fn from_secs(secs: u64) -> (r: Span)
        ensures
            r == (Span { secs, nanos: 0 }),
    {
        Span { secs, nanos: 0 }
    }

    /// The span in nanoseconds.
    pub fn as_nanos(self) -> (r: u128)
        ensures
            r == self.total(),
    {
        (self.secs as u128) * 1_000_000_000 + (self.nanos as u128)
    }

    /// This span is at least as long as the other.
    pub fn at_least(self, other: Span) -> (r: bool)
        ensures
            r == (self.total() >= other.total()),
    {
        self.as_nanos() >= other.as_nanos()
    }
}

/// What `humantime::parse_duration` makes of a text: seconds and nanoseconds,
/// or the message of its error.
pub uninterp spec fn duration_of(text: Seq<char>) -> Result<(u64, u32), Seq<char>>;

/// The nanoseconds in a unit, by its name. A month has 30.44 days, a year 365.25.
pub open spec fn unit_nanos(word: Seq<char>) -> Option<nat> {
    if word == "ns"@ || word == "nsec"@ || word == "nanos"@ {
        Some(1)
    } else if word == "us"@ || word == "usec"@ || word == "\u{b5}s"@ {
        Some(1_000)
    } else if word == "ms"@ || word == "msec"@ || word == "millis"@ {
        Some(1_000_000)
    } else if word == "s"@ || word == "sec"@ || word == "secs"@ || word == "second"@
        || word == "seconds"@
    {
        Some(1_000_000_000)
    } else if word == "m"@ || word == "min"@ || word == "mins"@ || word == "minute"@
        || word == "minutes"@
    {
        Some(60_000_000_000)
    } else if word == "h"@ || word == "hr"@ || word == "hrs"@ || word == "hour"@
        || word == "hours"@
    {
        Some(3_600_000_000_000)
    } else if word == "d"@ || word == "day"@ || word == "days"@ {
        Some(86_400_000_000_000)
    } else if word == "w"@ || word == "wk"@ || word == "wks"@ || word == "week"@
        || word == "weeks"@
    {
        Some(604_800_000_000_000)
    } else if word == "M"@ || word == "month"@ || word == "months"@ {
        Some(2_630_016_000_000_000)
    } else if word == "y"@ || word == "yr"@ || word == "yrs"@ || word == "year"@
        || word == "years"@
    {
        Some(31_557_600_000_000_000)
    } else {
        None
    }
}

/// A character that names of units are made of.
pub open spec fn is_unit_char(c: char) -> bool {
    ('a' <= c && c <= 'z') || ('A' <= c && c <= 'Z') || c == '\u{b5}'
}

/// The nanoseconds in one second more than can be counted.
pub const UNCOUNTABLE_NANOS: u128 = 18_446_744_073_709_551_616_000_000_000;

/// How far a span has been read: the nanoseconds of the parts that are finished,
/// and what is known of the one that goes on.
pub enum Reading {
    /// A part may begin, or the text may end.
    Between { nanos: nat },
    /// In the whole number of a part.
    Number { nanos: nat, number: nat },
    /// Behind its decimal point: so many parts of the denominator.
    Fraction { nanos: nat, number: nat, numerator: nat, denominator: nat },
    /// In the name of its unit.
    Unit { nanos: nat, number: nat, numerator: nat, denominator: nat, word: Seq<char> },
    /// The text was found not to be a span, or a number in it to be too large.
    Stopped,
    /// The parts come to more than can be counted.
    Over,
}

impl Reading {
    /// The part that goes on ends here.
    pub open spec fn closed(self) -> Reading {
        match self {
            Reading::Unit { nanos, number, numerator, denominator, word } => match unit_nanos(
                word,
            ) {
                Some(unit) => {
                    let sum = nanos + number * unit + numerator * unit / denominator;
                    if sum < UNCOUNTABLE_NANOS {
                        Reading::Between { nanos: sum }
                    } else {
                        Reading::Over
                    }
                },
                None => Reading::Stopped,
            },
            Reading::Number { .. } => Reading::Stopped,
            Reading::Fraction { .. } => Reading::Stopped,
            _ => self,
        }
    }

    /// A number begins, unless reading has come to an end.
    pub open spec fn begun(self, digit: nat) -> Reading {
        match self {
            Reading::Between { nanos } => Reading::Number { nanos, number: digit },
            _ => self,
        }
    }

    /// The next character is read.
    pub open spec fn with(self, c: char) -> Reading {
        let digit = digit_value(c)->0;
        match self {
            Reading::Between { .. } => if is_digit(c, 10) {
                self.begun(digit)
            } else if is_white(c) {
                self
            } else {
                Reading::Stopped
            },
            Reading::Number { nanos, number } => if is_digit(c, 10) {
                if number * 10 + digit <= u64::MAX {
                    Reading::Number { nanos, number: number * 10 + digit }
                } else {
                    Reading::Stopped
                }
            } else if is_white(c) {
                self
            } else if is_unit_char(c) {
                Reading::Unit { nanos, number, numerator: 0, denominator: 1, word: seq![c] }
            } else if c == '.' {
                Reading::Fraction { nanos, number, numerator: 0, denominator: 1 }
            } else {
                Reading::Stopped
            },
            Reading::Fraction { nanos, number, numerator, denominator } => if is_digit(c, 10) {
                if denominator * 10 <= u64::MAX {
                    Reading::Fraction {
                        nanos,
                        number,
                        numerator: numerator * 10 + digit,
                        denominator: denominator * 10,
                    }
                } else {
                    Reading::Stopped
                }
            } else if is_white(c) {
                self
            } else if is_unit_char(c) && denominator > 1 {
                Reading::Unit { nanos, number, numerator, denominator, word: seq![c] }
            } else {
                Reading::Stopped
            },
            Reading::Unit { nanos, number, numerator, denominator, word } => if is_digit(c, 10) {
                self.closed().begun(digit)
            } else if is_white(c) {
                self.closed()
            } else if is_unit_char(c) {
                Reading::Unit { nanos, number, numerator, denominator, word: word.push(c) }
            } else {
                Reading::Stopped
            },
            Reading::Stopped => self,
            Reading::Over => self,
        }
    }
}

/// How far a text is read as a span.
pub open spec fn reading(s: Seq<char>) -> Reading
    decreases s.len(),
{
    if s.len() == 0 {
        Reading::Between { nanos: 0 }
    } else {
        reading(s.drop_last()).with(s.last())
    }
}

/// Texts on which `humantime::parse_duration` returns. It reads part after part
/// and adds them up. Where they come to more than can be counted it returns an
/// error, but for one sum: where exactly a billion nanoseconds meet the largest
/// number of seconds, it panics.
pub open spec fn measurable(s: Seq<char>) -> bool {
    !(reading(s).closed() is Over)
}

/// Reading does not go on once it has come to an end.
proof fn lemma_reading_ended(s: Seq<char>, i: int)
    requires
        0 <= i <= s.len(),
        reading(s.take(i)) is Stopped || reading(s.take(i)) is Over,
    ensures
        reading(s) == reading(s.take(i)),
    decreases s.len() - i,
{
    if i < s.len() {
        assert(s.take(i + 1).drop_last() =~= s.take(i));
        lemma_reading_ended(s, i + 1);
    } else {
        assert(s.take(i) =~= s);
    }
}

fn nanos_of_unit(word: &Vec<char>) -> (r: Option<u128>)
    ensures
        match r {
            Some(n) => unit_nanos(word@) == Some(n as nat) && 1 <= n <= 31_557_600_000_000_000,
            None => unit_nanos(word@) is None,
        },
{
    let w = string_of(word);
    let w = w.as_str();
    if same_str(w, "ns") || same_str(w, "nsec") || same_str(w, "nanos") {
        Some(1)
    } else if same_str(w, "us") || same_str(w, "usec") || same_str(w, "\u{b5}s") {
        Some(1_000)
    } else if same_str(w, "ms") || same_str(w, "msec") || same_str(w, "millis") {
        Some(1_000_000)
    } else if same_str(w, "s") || same_str(w, "sec") || same_str(w, "secs")
        || same_str(w, "second") || same_str(w, "seconds")
    {
        Some(1_000_000_000)
    } else if same_str(w, "m") || same_str(w, "min") || same_str(w, "mins")
        || same_str(w, "minute") || same_str(w, "minutes")
    {
        Some(60_000_000_000)
    } else if same_str(w, "h") || same_str(w, "hr") || same_str(w, "hrs") || same_str(w, "hour")
        || same_str(w, "hours")
    {
        Some(3_600_000_000_000)
    } else if same_str(w, "d") || same_str(w, "day") || same_str(w, "days") {
        Some(86_400_000_000_000)
    } else if same_str(w, "w") || same_str(w, "wk") || same_str(w, "wks") || same_str(w, "week")
        || same_str(w, "weeks")
    {
        Some(604_800_000_000_000)
    } else if same_str(w, "M") || same_str(w, "month") || same_str(w, "months") {
        Some(2_630_016_000_000_000)
    } else if same_str(w, "y") || same_str(w, "yr") || same_str(w, "yrs") || same_str(w, "year")
        || same_str(w, "years")
    {
        Some(31_557_600_000_000_000)
    } else {
        None
    }
}

#[derive(Clone, Copy, PartialEq, Eq, Structural)]
enum Place {
    Between,
    Number,
    Fraction,
    Unit,
}

/// Whether reading goes on.
#[derive(Clone, Copy, PartialEq, Eq, Structural)]
enum Progress {
    Goes,
    Stopped,
    Over,
}

/// A reading that has not come to an end.
struct Reader {
    place: Place,
    nanos: u128,
    number: u64,
    numerator: u64,
    denominator: u64,
    word: Vec<char>,
}

impl Reader {
    spec fn wf(self) -> bool {
        self.nanos < UNCOUNTABLE_NANOS && self.numerator < self.denominator
    }

    spec fn reading(self) -> Reading {
        let nanos = self.nanos as nat;
        let number = self.number as nat;
        let numerator = self.numerator as nat;
        let denominator = self.denominator as nat;
        match self.place {
            Place::Between => Reading::Between { nanos },
            Place::Number => Reading::Number { nanos, number },
            Place::Fraction => Reading::Fraction { nanos, number, numerator, denominator },
            Place::Unit => Reading::Unit {
                nanos,
                number,
                numerator,
                denominator,
                word: self.word@,
            },
        }
    }

    /// End the part that goes on.
    fn close(&mut self) -> (r: Progress)
        requires
            old(self).wf(),
        ensures
            match r {
                Progress::Goes => {
                    &&& final(self).wf()
                    &&& final(self).place == Place::Between
                    &&& final(self).reading() == old(self).reading().closed()
                },
                Progress::Stopped => old(self).reading().closed() is Stopped,
                Progress::Over => old(self).reading().closed() is Over,
            },
    {
        match self.place {
            Place::Between => Progress::Goes,
            Place::Number => Progress::Stopped,
            Place::Fraction => Progress::Stopped,
            Place::Unit => match nanos_of_unit(&self.word) {
                None => Progress::Stopped,
                Some(unit) => {
                    let number: u128 = self.number as u128;
                    let numerator: u128 = self.numerator as u128;
                    let denominator: u128 = self.denominator as u128;
                    proof {
                        let top = 0x1_0000_0000_0000_0000 * 31_557_600_000_000_000;
                        assert(number * unit <= top) by (nonlinear_arith)
                            requires
                                number < 0x1_0000_0000_0000_0000,
                                unit <= 31_557_600_000_000_000,
                                top == 0x1_0000_0000_0000_0000 * 31_557_600_000_000_000,
                        ;
                        assert(numerator * unit <= top) by (nonlinear_arith)
                            requires
                                numerator < 0x1_0000_0000_0000_0000,
                                unit <= 31_557_600_000_000_000,
                                top == 0x1_0000_0000_0000_0000 * 31_557_600_000_000_000,
                        ;
                        let part = (numerator * unit) as int;
                        assert(0 <= part / (denominator as int) <= part) by (nonlinear_arith)
                            requires
                                part >= 0,
                                denominator >= 1,
                        ;
                    }
                    let sum: u128 = self.nanos + number * unit + numerator * unit / denominator;
                    if sum < UNCOUNTABLE_NANOS {
                        self.nanos = sum;
                        self.place = Place::Between;
                        Progress::Goes
                    } else {
                        Progress::Over
                    }
                },
            },
        }
    }

    /// Read one character.
    fn read(&mut self, c: char) -> (r: Progress)
        requires
            old(self).wf(),
        ensures
            match r {
                Progress::Goes => {
                    &&& final(self).wf()
                    &&& final(self).reading() == old(self).reading().with(c)
                },
                Progress::Stopped => old(self).reading().with(c) is Stopped,
                Progress::Over => old(self).reading().with(c) is Over,
            },
    {
        let digit: Option<u64> = match value_of_digit(c) {
            Some(x) => if x < 10 {
                Some(x)
            } else {
                None
            },
            None => None,
        };
        if let Some(d) = digit {
            return self.read_digit(c, d);
        }
        if is_whitespace(c) {
            return if self.place == Place::Unit {
                self.close()
            } else {
                Progress::Goes
            };
        }
        let letter = ('a' <= c && c <= 'z') || ('A' <= c && c <= 'Z') || c == '\u{b5}';
        match self.place {
            Place::Between => Progress::Stopped,
            Place::Number => if letter {
                self.begin_unit(c);
                self.numerator = 0;
                self.denominator = 1;
                Progress::Goes
            } else if c == '.' {
                self.place = Place::Fraction;
                self.numerator = 0;
                self.denominator = 1;
                Progress::Goes
            } else {
                Progress::Stopped
            },
            Place::Fraction => if letter && self.denominator > 1 {
                self.begin_unit(c);
                Progress::Goes
            } else {
                Progress::Stopped
            },
            Place::Unit => if letter {
                self.word.push(c);
                Progress::Goes
            } else {
                Progress::Stopped
            },
        }
    }

    fn begin_unit(&mut self, c: char)
        ensures
            final(self).place == Place::Unit,
            final(self).word@ == seq![c],
            final(self).nanos == old(self).nanos,
            final(self).number == old(self).number,
            final(self).numerator == old(self).numerator,
            final(self).denominator == old(self).denominator,
    {
        let mut word: Vec<char> = Vec::new();
        word.push(c);
        proof {
            assert(word@ =~= seq![c]);
        }
        self.place = Place::Unit;
        self.word = word;
    }

    fn read_digit(&mut self, c: char, d: u64) -> (r: Progress)
        requires
            old(self).wf(),
            d < 10,
            is_digit(c, 10),
            digit_value(c) == Some(d as nat),
        ensures
            match r {
                Progress::Goes => {
                    &&& final(self).wf()
                    &&& final(self).reading() == old(self).reading().with(c)
                },
                Progress::Stopped => old(self).reading().with(c) is Stopped,
                Progress::Over => old(self).reading().with(c) is Over,
            },
    {
        match self.place {
            Place::Between => {
                self.place = Place::Number;
                self.number = d;
                Progress::Goes
            },
            Place::Number => {
                let next: u128 = self.number as u128 * 10 + d as u128;
                if next > u64::MAX as u128 {
                    return Progress::Stopped;
                }
                self.number = next as u64;
                Progress::Goes
            },
            Place::Fraction => {
                let next: u128 = self.denominator as u128 * 10;
                if next > u64::MAX as u128 {
                    return Progress::Stopped;
                }
                self.denominator = next as u64;
                self.numerator = self.numerator * 10 + d;
                Progress::Goes
            },
            Place::Unit => {
                let r = self.close();
                if r == Progress::Goes {
                    self.place = Place::Number;
                    self.number = d;
                }
                r
            },
        }
    }
}

/// Tell whether a text is one that can be measured.
pub fn is_measurable(text: &str) -> (r: bool)
    ensures
        r == measurable(text@),
{
    let s = chars_of(text);
    let mut reader = Reader {
        place: Place::Between,
        nanos: 0,
        number: 0,
        numerator: 0,
        denominator: 1,
        word: Vec::new(),
    };
    let mut i: usize = 0;
    while i < s.len()
        invariant
            i <= s@.len(),
            reader.wf(),
            s@ == text@,
            reading(s@.take(i as int)) == reader.reading(),
        decreases s@.len() - i,
    {
        proof {
            assert(s@.take(i + 1).drop_last() =~= s@.take(i as int));
            assert(s@.take(i + 1).last() == s@[i as int]);
        }
        let progress = reader.read(s[i]);
        if progress != Progress::Goes {
            proof {
                lemma_reading_ended(s@, i + 1);
            }
            return progress == Progress::Stopped;
        }
        i = i + 1;
    }
    proof {
        assert(s@.take(i as int) =~= s@);
    }
    reader.close() != Progress::Over
}

/// A number of seconds, if it can be counted.
pub open spec fn countable(secs: nat) -> Option<u64> {
    if secs <= u64::MAX {
        Some(secs as u64)
    } else {
        None
    }
}

/// The seconds in a number of seconds, minutes, hours or days, as the letter
/// behind the number says; none for another letter, and where they cannot be
/// counted.
pub open spec fn plain_secs(n: nat, unit: char) -> Option<u64> {
    match unit {
        's' => countable(n),
        'm' => countable(n * 60),
        'h' => countable(n * 3_600),
        'd' => countable(n * 86_400),
        _ => None,
    }
}

/// `humantime::parse_duration`: the same text gives the same span or the same
/// error message. A span has less than a billion nanoseconds on top of its
/// seconds. A number with `s`, `m`, `h` or `d` behind it is that many seconds,
/// minutes, hours or days; a number without a unit, other than a plain `0`, is an
/// error. A text whose parts come to more than can be counted is not handed over:
/// on some of these the function panics, on the others it returns the error that
/// `too_long` shows.
#[verifier::external_body]
fn humantime_parse(text: &str) -> (r: Result<(u64, u32), String>)
    requires
        measurable(text@),
    ensures
        match r {
            Ok(d) => duration_of(text@) == Ok::<(u64, u32), Seq<char>>(d) && d.1 < 1_000_000_000,
            Err(e) => duration_of(text@) == Err::<(u64, u32), Seq<char>>(e@),
        },
        (forall|n: nat, u: char|
            text@ == #[trigger] decimal(n).push(u) && plain_secs(n, u) is Some ==> r == Ok::<
                (u64, u32),
                String,
            >((plain_secs(n, u)->0, 0))),
        all_digits(text@, 10) && text@ != "0"@ ==> r is Err,
{
    match humantime::parse_duration(text) {
        Ok(d) => Ok((d.as_secs(), d.subsec_nanos())),
        Err(e) => Err(e.to_string()),
    }
}

/// What is said of a span that is longer than can be counted.
pub open spec fn too_long() -> Seq<char> {
    "number is too large or cannot be represented without a lack of precision (values below 1ns are not supported)"@
}

/// The span that a text stands for, or what is wrong with it.
pub open spec fn span_of(text: Seq<char>) -> Result<(u64, u32), Seq<char>> {
    if measurable(text) {
        duration_of(text)
    } else {
        Err(too_long())
    }
}

proof fn lemma_reading_of_digits(s: Seq<char>)
    requires
        all_digits(s, 10),
        s.len() > 0,
        value(s, 10) <= u64::MAX,
    ensures
        reading(s) == (Reading::Number { nanos: 0, number: value(s, 10) }),
    decreases s.len(),
{
    let front = s.drop_last();
    assert forall|i: int| 0 <= i < front.len() implies is_digit(#[trigger] front[i], 10) by {
        assert(front[i] == s[i]);
    }
    assert(is_digit(s[s.len() - 1], 10));
    if front.len() > 0 {
        lemma_reading_of_digits(front);
    } else {
        assert(value(front, 10) == 0);
    }
}

/// A plain number of a plain unit can be measured.
proof fn lemma_plain_is_measurable(n: nat, u: char)
    requires
        plain_secs(n, u) is Some,
    ensures
        measurable(decimal(n).push(u)),
{
    let s = decimal(n).push(u);
    lemma_decimal_reads_back(n);
    lemma_reading_of_digits(decimal(n));
    assert(s.drop_last() =~= decimal(n));
    assert(s.last() == u);
    reveal_strlit("ns");
    reveal_strlit("nsec");
    reveal_strlit("nanos");
    reveal_strlit("us");
    reveal_strlit("usec");
    reveal_strlit("\u{b5}s");
    reveal_strlit("ms");
    reveal_strlit("msec");
    reveal_strlit("millis");
    reveal_strlit("s");
    reveal_strlit("sec");
    reveal_strlit("secs");
    reveal_strlit("second");
    reveal_strlit("seconds");
    reveal_strlit("m");
    reveal_strlit("min");
    reveal_strlit("mins");
    reveal_strlit("minute");
    reveal_strlit("minutes");
    reveal_strlit("h");
    reveal_strlit("hr");
    reveal_strlit("hrs");
    reveal_strlit("hour");
    reveal_strlit("hours");
    reveal_strlit("d");
    reveal_strlit("day");
    reveal_strlit("days");
    let word = seq![u];
    assert("s"@ =~= seq!['s']);
    assert("m"@ =~= seq!['m']);
    assert("h"@ =~= seq!['h']);
    assert("d"@ =~= seq!['d']);
    assert(word.len() == 1 && word[0] == u);
    assert(reading(s) == (Reading::Unit {
        nanos: 0,
        number: n,
        numerator: 0,
        denominator: 1,
        word,
    }));
    let unit = unit_nanos(word)->0;
    assert(0 * unit / 1 == 0);
}

/// Read a span of time. Of one that comes to more than can be counted it is said
/// that it is too long.
pub fn parse_span(text: &str) -> (r: Result<Span, String>)
    ensures
        match r {
            Ok(d) => span_of(text@) == Ok::<(u64, u32), Seq<char>>((d.secs, d.nanos)) && d.nanos
                < 1_000_000_000,
            Err(e) => span_of(text@) == Err::<(u64, u32), Seq<char>>(e@),
        },
        forall|n: nat, u: char|
            text@ == #[trigger] decimal(n).push(u) && plain_secs(n, u) is Some ==> r == Ok::<
                Span,
                String,
            >((Span { secs: plain_secs(n, u)->0, nanos: 0 })),
        all_digits(text@, 10) && text@ != "0"@ ==> r is Err,
{
    if !is_measurable(text) {
        proof {
            assert forall|n: nat, u: char|
                plain_secs(n, u) is Some implies text@ != #[trigger] decimal(n).push(u) by {
                lemma_plain_is_measurable(n, u);
            }
        }
        return Err(
            String::from_str(
                "number is too large or cannot be represented without a lack of precision (values below 1ns are not supported)",
            ),
        );
    }
    match humantime_parse(text) {
        Ok(d) => Ok(Span { secs: d.0, nanos: d.1 }),
        Err(e) => Err(e),
    }
}

/// How a span shows in messages: what `{:?}` of `std::time::Duration` makes of
/// it.
pub uninterp spec fn span_shown(secs: u64, nanos: u32) -> Seq<char>;

/// `<std::time::Duration as std::fmt::Debug>::fmt`, through `format!`. The same
/// span always shows the same.
#[verifier::external_body]
fn duration_debug(secs: u64, nanos: u32) -> (r: String)
    requires
        nanos < 1_000_000_000,
    ensures
        r@ == span_shown(secs, nanos),
{
    format!("{:?}", std::time::Duration::new(secs, nanos))
}

impl Span {
    /// Less than a second stands on top of the whole seconds.
    pub open spec fn wf(self) -> bool {
        self.nanos < 1_000_000_000
    }

    /// The span as messages show it.
    pub fn show(self) -> (r: String)
        requires
            self.wf(),
        ensures
            r@ == span_shown(self.secs, self.nanos),
    {
        duration_debug(self.secs, self.nanos)
    }
}

// ---- laws ------------------------------------------------------------------

/// How much a unit is: sixty seconds make a minute, sixty minutes an hour, 24
/// hours a day, seven days a week; a year has 365 days and six hours.
pub proof fn lemma_units()
    ensures
        ({
            let second: nat = 1_000_000_000;
            &&& unit_nanos("ns"@) == Some(1nat)
            &&& unit_nanos("nsec"@) == Some(1nat)
            &&& unit_nanos("nanos"@) == Some(1nat)
            &&& unit_nanos("us"@) == Some(1_000nat)
            &&& unit_nanos("\u{b5}s"@) == Some(1_000nat)
            &&& unit_nanos("usec"@) == Some(1_000nat)
            &&& unit_nanos("ms"@) == Some(1_000_000nat)
            &&& unit_nanos("msec"@) == Some(1_000_000nat)
            &&& unit_nanos("millis"@) == Some(1_000_000nat)
            &&& unit_nanos("s"@) == Some(second)
            &&& unit_nanos("sec"@) == Some(second)
            &&& unit_nanos("secs"@) == Some(second)
            &&& unit_nanos("second"@) == Some(second)
            &&& unit_nanos("seconds"@) == Some(second)
            &&& unit_nanos("m"@) == Some(60 * second)
            &&& unit_nanos("min"@) == Some(60 * second)
            &&& unit_nanos("mins"@) == Some(60 * second)
            &&& unit_nanos("minute"@) == Some(60 * second)
            &&& unit_nanos("minutes"@) == Some(60 * second)
            &&& unit_nanos("h"@) == Some(60 * 60 * second)
            &&& unit_nanos("hr"@) == Some(60 * 60 * second)
            &&& unit_nanos("hrs"@) == Some(60 * 60 * second)
            &&& unit_nanos("hour"@) == Some(60 * 60 * second)
            &&& unit_nanos("hours"@) == Some(60 * 60 * second)
            &&& unit_nanos("d"@) == Some(24 * 60 * 60 * second)
            &&& unit_nanos("day"@) == Some(24 * 60 * 60 * second)
            &&& unit_nanos("days"@) == Some(24 * 60 * 60 * second)
            &&& unit_nanos("w"@) == Some(7 * 24 * 60 * 60 * second)
            &&& unit_nanos("wk"@) == Some(7 * 24 * 60 * 60 * second)
            &&& unit_nanos("wks"@) == Some(7 * 24 * 60 * 60 * second)
            &&& unit_nanos("week"@) == Some(7 * 24 * 60 * 60 * second)
            &&& unit_nanos("weeks"@) == Some(7 * 24 * 60 * 60 * second)
            &&& unit_nanos("M"@) == Some(2_630_016 * second)
            &&& unit_nanos("month"@) == Some(2_630_016 * second)
            &&& unit_nanos("months"@) == Some(2_630_016 * second)
            &&& unit_nanos("y"@) == Some((365 * 24 + 6) * 60 * 60 * second)
            &&& unit_nanos("yr"@) == Some((365 * 24 + 6) * 60 * 60 * second)
            &&& unit_nanos("yrs"@) == Some((365 * 24 + 6) * 60 * 60 * second)
            &&& unit_nanos("year"@) == Some((365 * 24 + 6) * 60 * 60 * second)
            &&& unit_nanos("years"@) == Some((365 * 24 + 6) * 60 * 60 * second)
        }),
{
    lemma_unit_words();
}

/// A plain number of seconds, minutes, hours or days comes to that many seconds,
/// as long as they can be counted in 64 bits; with another letter it is none of
/// these.
pub proof fn lemma_plain_secs(n: nat, unit: char)
    ensures
        ({
            let each: nat = if unit == 's' {
                1
            } else if unit == 'm' {
                60
            } else if unit == 'h' {
                60 * 60
            } else if unit == 'd' {
                24 * 60 * 60
            } else {
                0
            };
            &&& each == 0 ==> plain_secs(n, unit) is None
            &&& each > 0 ==> (plain_secs(n, unit) is Some <==> n * each
                <= 0xffff_ffff_ffff_ffff)
            &&& plain_secs(n, unit) matches Some(secs) ==> secs == n * each
        }),
{
}

/// One part of a span: digits and the name of a unit. It adds that many times
/// the unit to what was read before it, unless the sum cannot be counted; an
/// unknown unit ends the reading.
pub proof fn lemma_part(s: Seq<char>, digits: Seq<char>, word: Seq<char>)
    requires
        reading(s) is Between,
        digits.len() > 0,
        all_digits(digits, 10),
        value(digits, 10) <= 0xffff_ffff_ffff_ffff,
        word.len() > 0,
        forall|i: int| 0 <= i < word.len() ==> is_unit_char(#[trigger] word[i]),
    ensures
        ({
            let before = reading(s)->Between_nanos;
            reading(s + digits + word).closed() == match unit_nanos(word) {
                None => Reading::Stopped,
                Some(unit) => if before + value(digits, 10) * unit
                    < 18_446_744_073_709_551_616_000_000_000 {
                    Reading::Between { nanos: before + value(digits, 10) * unit }
                } else {
                    Reading::Over
                },
            }
        }),
{
    lemma_digits_read(s, digits);
    lemma_word_read(s + digits, reading(s)->Between_nanos, value(digits, 10), word);
    match unit_nanos(word) {
        Some(unit) => {
            assert(0 * unit / 1 == 0);
        },
        None => {},
    }
}

proof fn lemma_digits_read(s: Seq<char>, digits: Seq<char>)
    requires
        reading(s) is Between,
        digits.len() > 0,
        all_digits(digits, 10),
        value(digits, 10) <= 0xffff_ffff_ffff_ffff,
    ensures
        reading(s + digits) == (Reading::Number {
            nanos: reading(s)->Between_nanos,
            number: value(digits, 10),
        }),
    decreases digits.len(),
{
    let front = digits.drop_last();
    let all = s + digits;
    assert(all.drop_last() =~= s + front);
    assert(all.last() == digits.last());
    assert forall|i: int| 0 <= i < front.len() implies is_digit(#[trigger] front[i], 10) by {
        assert(front[i] == digits[i]);
    }
    assert(is_digit(digits[digits.len() - 1], 10));
    if front.len() > 0 {
        lemma_digits_read(s, front);
    } else {
        assert(value(front, 10) == 0);
        assert(s + front =~= s);
    }
}

proof fn lemma_word_read(s: Seq<char>, nanos: nat, number: nat, word: Seq<char>)
    requires
        reading(s) == (Reading::Number { nanos, number }),
        word.len() > 0,
        forall|i: int| 0 <= i < word.len() ==> is_unit_char(#[trigger] word[i]),
    ensures
        reading(s + word) == (Reading::Unit {
            nanos,
            number,
            numerator: 0,
            denominator: 1,
            word,
        }),
    decreases word.len(),
{
    let front = word.drop_last();
    let all = s + word;
    assert(all.drop_last() =~= s + front);
    assert(all.last() == word.last());
    assert(is_unit_char(word[word.len() - 1]));
    if front.len() > 0 {
        assert forall|i: int| 0 <= i < front.len() implies is_unit_char(#[trigger] front[i]) by {
            assert(front[i] == word[i]);
        }
        lemma_word_read(s, nanos, number, front);
        assert(front.push(word.last()) =~= word);
    } else {
        assert(s + front =~= s);
        assert(word =~= seq![word.last()]);
    }
}

/// A text is handed over exactly if its parts come to what can be counted; of
/// any other it is said that the number is too large.
pub proof fn lemma_span_of(text: Seq<char>)
    ensures
        !(reading(text).closed() is Over) ==> span_of(text) == duration_of(text),
        reading(text).closed() is Over ==> span_of(text) == Err::<(u64, u32), Seq<char>>(
            "number is too large or cannot be represented without a lack of precision (values below 1ns are not supported)"@,
        ),
{
}

/// A span is its seconds and, on top of them, its nanoseconds.
pub proof fn lemma_total(s: Span)
    ensures
        s.total() == s.secs * 1_000_000_000 + s.nanos,
        s.wf() <==> s.nanos < 1_000_000_000,
{
}

proof fn lemma_unit_words()
    ensures
        unit_nanos("ns"@) == Some(1nat),
        unit_nanos("nsec"@) == Some(1nat),
        unit_nanos("nanos"@) == Some(1nat),
        unit_nanos("us"@) == Some(1_000nat),
        unit_nanos("\u{b5}s"@) == Some(1_000nat),
        unit_nanos("usec"@) == Some(1_000nat),
        unit_nanos("ms"@) == Some(1_000_000nat),
        unit_nanos("msec"@) == Some(1_000_000nat),
        unit_nanos("millis"@) == Some(1_000_000nat),
        unit_nanos("s"@) == Some(1_000_000_000nat),
        unit_nanos("sec"@) == Some(1_000_000_000nat),
        unit_nanos("secs"@) == Some(1_000_000_000nat),
        unit_nanos("second"@) == Some(1_000_000_000nat),
        unit_nanos("seconds"@) == Some(1_000_000_000nat),
        unit_nanos("m"@) == Some(60_000_000_000nat),
        unit_nanos("min"@) == Some(60_000_000_000nat),
        unit_nanos("mins"@) == Some(60_000_000_000nat),
        unit_nanos("minute"@) == Some(60_000_000_000nat),
        unit_nanos("minutes"@) == Some(60_000_000_000nat),
        unit_nanos("h"@) == Some(3_600_000_000_000nat),
        unit_nanos("hr"@) == Some(3_600_000_000_000nat),
        unit_nanos("hrs"@) == Some(3_600_000_000_000nat),
        unit_nanos("hour"@) == Some(3_600_000_000_000nat),
        unit_nanos("hours"@) == Some(3_600_000_000_000nat),
        unit_nanos("d"@) == Some(86_400_000_000_000nat),
        unit_nanos("day"@) == Some(86_400_000_000_000nat),
        unit_nanos("days"@) == Some(86_400_000_000_000nat),
        unit_nanos("w"@) == Some(604_800_000_000_000nat),
        unit_nanos("wk"@) == Some(604_800_000_000_000nat),
        unit_nanos("wks"@) == Some(604_800_000_000_000nat),
        unit_nanos("week"@) == Some(604_800_000_000_000nat),
        unit_nanos("weeks"@) == Some(604_800_000_000_000nat),
        unit_nanos("M"@) == Some(2_630_016_000_000_000nat),
        unit_nanos("month"@) == Some(2_630_016_000_000_000nat),
        unit_nanos("months"@) == Some(2_630_016_000_000_000nat),
        unit_nanos("y"@) == Some(31_557_600_000_000_000nat),
        unit_nanos("yr"@) == Some(31_557_600_000_000_000nat),
        unit_nanos("yrs"@) == Some(31_557_600_000_000_000nat),
        unit_nanos("year"@) == Some(31_557_600_000_000_000nat),
        unit_nanos("years"@) == Some(31_557_600_000_000_000nat),
{
    reveal_strlit("ns");
    reveal_strlit("nsec");
    reveal_strlit("nanos");
    reveal_strlit("us");
    reveal_strlit("usec");
    reveal_strlit("\u{b5}s");
    reveal_strlit("ms");
    reveal_strlit("msec");
    reveal_strlit("millis");
    reveal_strlit("s");
    reveal_strlit("sec");
    reveal_strlit("secs");
    reveal_strlit("second");
    reveal_strlit("seconds");
    reveal_strlit("m");
    reveal_strlit("min");
    reveal_strlit("mins");
    reveal_strlit("minute");
    reveal_strlit("minutes");
    reveal_strlit("h");
    reveal_strlit("hr");
    reveal_strlit("hrs");
    reveal_strlit("hour");
    reveal_strlit("hours");
    reveal_strlit("d");
    reveal_strlit("day");
    reveal_strlit("days");
    reveal_strlit("w");
    reveal_strlit("wk");
    reveal_strlit("wks");
    reveal_strlit("week");
    reveal_strlit("weeks");
    reveal_strlit("M");
    reveal_strlit("month");
    reveal_strlit("months");
    reveal_strlit("y");
    reveal_strlit("yr");
    reveal_strlit("yrs");
    reveal_strlit("year");
    reveal_strlit("years");
    assert("ns"@.len() == 2 && "ns"@[0] == 'n' && "ns"@[1] == 's');
    assert("nsec"@.len() == 4 && "nsec"@[0] == 'n' && "nsec"@[1] == 's' && "nsec"@[2] == 'e' && "nsec"@[3] == 'c');
    assert("nanos"@.len() == 5 && "nanos"@[0] == 'n' && "nanos"@[1] == 'a' && "nanos"@[2] == 'n' && "nanos"@[3] == 'o' && "nanos"@[4] == 's');
    assert("us"@.len() == 2 && "us"@[0] == 'u' && "us"@[1] == 's');
    assert("usec"@.len() == 4 && "usec"@[0] == 'u' && "usec"@[1] == 's' && "usec"@[2] == 'e' && "usec"@[3] == 'c');
    assert("\u{b5}s"@.len() == 2 && "\u{b5}s"@[0] == '\u{b5}' && "\u{b5}s"@[1] == 's');
    assert("ms"@.len() == 2 && "ms"@[0] == 'm' && "ms"@[1] == 's');
    assert("msec"@.len() == 4 && "msec"@[0] == 'm' && "msec"@[1] == 's' && "msec"@[2] == 'e' && "msec"@[3] == 'c');
    assert("millis"@.len() == 6 && "millis"@[0] == 'm' && "millis"@[1] == 'i' && "millis"@[2] == 'l' && "millis"@[3] == 'l' && "millis"@[4] == 'i' && "millis"@[5] == 's');
    assert("s"@.len() == 1 && "s"@[0] == 's');
    assert("sec"@.len() == 3 && "sec"@[0] == 's' && "sec"@[1] == 'e' && "sec"@[2] == 'c');
    assert("secs"@.len() == 4 && "secs"@[0] == 's' && "secs"@[1] == 'e' && "secs"@[2] == 'c' && "secs"@[3] == 's');
    assert("second"@.len() == 6 && "second"@[0] == 's' && "second"@[1] == 'e' && "second"@[2] == 'c' && "second"@[3] == 'o' && "second"@[4] == 'n' && "second"@[5] == 'd');
    assert("seconds"@.len() == 7 && "seconds"@[0] == 's' && "seconds"@[1] == 'e' && "seconds"@[2] == 'c' && "seconds"@[3] == 'o' && "seconds"@[4] == 'n' && "seconds"@[5] == 'd' && "seconds"@[6] == 's');
    assert("m"@.len() == 1 && "m"@[0] == 'm');
    assert("min"@.len() == 3 && "min"@[0] == 'm' && "min"@[1] == 'i' && "min"@[2] == 'n');
    assert("mins"@.len() == 4 && "mins"@[0] == 'm' && "mins"@[1] == 'i' && "mins"@[2] == 'n' && "mins"@[3] == 's');
    assert("minute"@.len() == 6 && "minute"@[0] == 'm' && "minute"@[1] == 'i' && "minute"@[2] == 'n' && "minute"@[3] == 'u' && "minute"@[4] == 't' && "minute"@[5] == 'e');
    assert("minutes"@.len() == 7 && "minutes"@[0] == 'm' && "minutes"@[1] == 'i' && "minutes"@[2] == 'n' && "minutes"@[3] == 'u' && "minutes"@[4] == 't' && "minutes"@[5] == 'e' && "minutes"@[6] == 's');
    assert("h"@.len() == 1 && "h"@[0] == 'h');
    assert("hr"@.len() == 2 && "hr"@[0] == 'h' && "hr"@[1] == 'r');
    assert("hrs"@.len() == 3 && "hrs"@[0] == 'h' && "hrs"@[1] == 'r' && "hrs"@[2] == 's');
    assert("hour"@.len() == 4 && "hour"@[0] == 'h' && "hour"@[1] == 'o' && "hour"@[2] == 'u' && "hour"@[3] == 'r');
    assert("hours"@.len() == 5 && "hours"@[0] == 'h' && "hours"@[1] == 'o' && "hours"@[2] == 'u' && "hours"@[3] == 'r' && "hours"@[4] == 's');
    assert("d"@.len() == 1 && "d"@[0] == 'd');
    assert("day"@.len() == 3 && "day"@[0] == 'd' && "day"@[1] == 'a' && "day"@[2] == 'y');
    assert("days"@.len() == 4 && "days"@[0] == 'd' && "days"@[1] == 'a' && "days"@[2] == 'y' && "days"@[3] == 's');
    assert("w"@.len() == 1 && "w"@[0] == 'w');
    assert("wk"@.len() == 2 && "wk"@[0] == 'w' && "wk"@[1] == 'k');
    assert("wks"@.len() == 3 && "wks"@[0] == 'w' && "wks"@[1] == 'k' && "wks"@[2] == 's');
    assert("week"@.len() == 4 && "week"@[0] == 'w' && "week"@[1] == 'e' && "week"@[2] == 'e' && "week"@[3] == 'k');
    assert("weeks"@.len() == 5 && "weeks"@[0] == 'w' && "weeks"@[1] == 'e' && "weeks"@[2] == 'e' && "weeks"@[3] == 'k' && "weeks"@[4] == 's');
    assert("M"@.len() == 1 && "M"@[0] == 'M');
    assert("month"@.len() == 5 && "month"@[0] == 'm' && "month"@[1] == 'o' && "month"@[2] == 'n' && "month"@[3] == 't' && "month"@[4] == 'h');
    assert("months"@.len() == 6 && "months"@[0] == 'm' && "months"@[1] == 'o' && "months"@[2] == 'n' && "months"@[3] == 't' && "months"@[4] == 'h' && "months"@[5] == 's');
    assert("y"@.len() == 1 && "y"@[0] == 'y');
    assert("yr"@.len() == 2 && "yr"@[0] == 'y' && "yr"@[1] == 'r');
    assert("yrs"@.len() == 3 && "yrs"@[0] == 'y' && "yrs"@[1] == 'r' && "yrs"@[2] == 's');
    assert("year"@.len() == 4 && "year"@[0] == 'y' && "year"@[1] == 'e' && "year"@[2] == 'a' && "year"@[3] == 'r');
    assert("years"@.len() == 5 && "years"@[0] == 'y' && "years"@[1] == 'e' && "years"@[2] == 'a' && "years"@[3] == 'r' && "years"@[4] == 's');
}

/// Units are known by these names and no others.
pub proof fn lemma_unit_names(word: Seq<char>)
    ensures
        unit_nanos(word) is Some <==> {
            ||| word == "ns"@ || word == "nsec"@ || word == "nanos"@
            ||| word == "us"@ || word == "usec"@ || word == "\u{b5}s"@
            ||| word == "ms"@ || word == "msec"@ || word == "millis"@
            ||| word == "s"@ || word == "sec"@ || word == "secs"@
            ||| word == "second"@ || word == "seconds"@
            ||| word == "m"@ || word == "min"@ || word == "mins"@
            ||| word == "minute"@ || word == "minutes"@
            ||| word == "h"@ || word == "hr"@ || word == "hrs"@
            ||| word == "hour"@ || word == "hours"@
            ||| word == "d"@ || word == "day"@ || word == "days"@
            ||| word == "w"@ || word == "wk"@ || word == "wks"@
            ||| word == "week"@ || word == "weeks"@
            ||| word == "M"@ || word == "month"@ || word == "months"@
            ||| word == "y"@ || word == "yr"@ || word == "yrs"@
            ||| word == "year"@ || word == "years"@
        },
{
}

/// How a span is read, character by character. White space ends a unit and is
/// passed over everywhere else; a digit begins the next part behind a unit; a
/// decimal point stands behind a whole number, with a digit behind it; whatever
/// else comes ends the reading, and so does a number that is too large.
pub proof fn lemma_reading_goes_on(s: Seq<char>, c: char)
    ensures
        reading(seq![]) == (Reading::Between { nanos: 0 }),
        ({
            let digit = '0' <= c <= '9';
            let d = (c as int - '0' as int) as nat;
            let letter = 'a' <= c <= 'z' || 'A' <= c <= 'Z' || c == '\u{b5}';
            let next = reading(s.push(c));
            match reading(s) {
                Reading::Between { nanos } => {
                    &&& digit ==> next == (Reading::Number { nanos, number: d })
                    &&& !digit && is_white(c) ==> next == reading(s)
                    &&& !digit && !is_white(c) ==> next is Stopped
                },
                Reading::Number { nanos, number } => {
                    &&& digit && number * 10 + d <= 0xffff_ffff_ffff_ffff ==> next == (
                    Reading::Number { nanos, number: number * 10 + d })
                    &&& digit && number * 10 + d > 0xffff_ffff_ffff_ffff ==> next is Stopped
                    &&& is_white(c) ==> next == reading(s)
                    &&& letter ==> next == (Reading::Unit {
                        nanos,
                        number,
                        numerator: 0,
                        denominator: 1,
                        word: seq![c],
                    })
                    &&& c == '.' ==> next == (Reading::Fraction {
                        nanos,
                        number,
                        numerator: 0,
                        denominator: 1,
                    })
                    &&& !digit && !letter && !is_white(c) && c != '.' ==> next is Stopped
                },
                Reading::Fraction { nanos, number, numerator, denominator } => {
                    &&& digit && denominator * 10 <= 0xffff_ffff_ffff_ffff ==> next == (
                    Reading::Fraction {
                        nanos,
                        number,
                        numerator: numerator * 10 + d,
                        denominator: denominator * 10,
                    })
                    &&& digit && denominator * 10 > 0xffff_ffff_ffff_ffff ==> next is Stopped
                    &&& is_white(c) ==> next == reading(s)
                    &&& letter && denominator > 1 ==> next == (Reading::Unit {
                        nanos,
                        number,
                        numerator,
                        denominator,
                        word: seq![c],
                    })
                    &&& letter && denominator <= 1 ==> next is Stopped
                    &&& !digit && !letter && !is_white(c) ==> next is Stopped
                },
                Reading::Unit { nanos, number, numerator, denominator, word } => {
                    &&& letter ==> next == (Reading::Unit {
                        nanos,
                        number,
                        numerator,
                        denominator,
                        word: word.push(c),
                    })
                    &&& is_white(c) ==> next == reading(s).closed()
                    &&& digit ==> next == match reading(s).closed() {
                        Reading::Between { nanos: sum } => Reading::Number { nanos: sum, number: d },
                        other => other,
                    }
                    &&& !digit && !letter && !is_white(c) ==> next is Stopped
                },
                Reading::Stopped => next is Stopped,
                Reading::Over => next is Over,
            }
        }),
{
    assert(s.push(c).drop_last() =~= s);
    crate::number::lemma_digit_values(c);
}

/// Where a part ends: with a known unit it adds that many times the unit, its
/// fraction cut off at whole nanoseconds, as far as that can be counted; a part
/// without a known unit ends the reading.
pub proof fn lemma_part_ends(r: Reading)
    ensures
        match r {
            Reading::Unit { nanos, number, numerator, denominator, word } => match unit_nanos(word) {
                None => r.closed() is Stopped,
                Some(unit) => {
                    let sum = nanos + number * unit + numerator * unit / denominator;
                    if sum < 18_446_744_073_709_551_616_000_000_000 {
                        r.closed() == (Reading::Between { nanos: sum })
                    } else {
                        r.closed() is Over
                    }
                },
            },
            Reading::Number { .. } => r.closed() is Stopped,
            Reading::Fraction { .. } => r.closed() is Stopped,
            _ => r.closed() == r,
        },
{
}

} // verus!
