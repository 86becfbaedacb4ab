//! One point of a time series: its builder, its validation and its line.

use std::time::{Duration, SystemTime, SystemTimeError};
use vstd::prelude::*;
use vstd::string::*;
use crate::decimal::{decimal, lemma_decimal_count, push_decimal};
use crate::error::Error;
use crate::escape::{
    escape_comma_equals_space,
    escape_measurement_name,
    escaped,
    free_of_delimiters,
    is_delimiter,
    lemma_escaped_occurrences,
    lemma_free_count,
    lemma_escaped_plain,
    is_special,
    push_char,
    Grammar,
};
use crate::field_value::{lemma_rendered_count, FieldValue};
use crate::join::{
    has_part,
    join,
    joined,
    lemma_has_part_within,
    lemma_joined_count,
    lemma_joined_has_part,
    lemma_occurrences_concat,
    lemma_occurrences_single,
    occurrences,
    texts,
};
use crate::ordered::{strictly_increasing, OrderedMap};

verus! {

/// A point in time of the system clock.
#[verifier::external_type_specification]
#[verifier::external_body]
pub struct ExSystemTime(std::time::SystemTime);

/// The time from the Unix epoch to `instant`; `None` where `instant` lies
/// before the epoch.
pub uninterp spec fn duration_since_unix_epoch(instant: SystemTime) -> Option<Duration>;

/// The whole of `duration`, counted in nanoseconds.
pub uninterp spec fn nanoseconds_of(duration: Duration) -> nat;

/// `SystemTime::duration_since` against `SystemTime::UNIX_EPOCH`: the time
/// from the epoch to `instant`, or an error where `instant` lies before it.
/// The outcome depends on `instant` alone, so it has a name; which error
/// comes where there is no duration is not claimed.
#[verifier::external_body]
fn since_unix_epoch(instant: &SystemTime) -> (r: Result<Duration, SystemTimeError>)
    ensures
        match r {
            Ok(duration) => duration_since_unix_epoch(*instant) == Some(duration),
            Err(_) => duration_since_unix_epoch(*instant) is None,
        },
{
    instant.duration_since(SystemTime::UNIX_EPOCH)
}

/// `Duration::as_nanos`: the whole duration in nanoseconds, which depends on
/// the duration alone and so has a name.
#[verifier::external_body]
fn whole_nanoseconds(duration: &Duration) -> (nanoseconds: u128)
    ensures
        nanoseconds as nat == nanoseconds_of(*duration),
{
    duration.as_nanos()
}

/// `SystemTime::now`: the system clock's current time. Nothing is claimed of
/// the value.
#[verifier::external_body]
fn current_time() -> (now: SystemTime) {
    SystemTime::now()
}

/// The count of nanoseconds in what the clock said of an instant's distance
/// from the Unix epoch: the whole duration in nanoseconds where the clock
/// gave one, and the clock's error, as it came, where the instant lies
/// before the epoch.
fn unix_nanoseconds(since_epoch: Result<Duration, SystemTimeError>) -> (r: Result<
    u128,
    SystemTimeError,
>)
    ensures
        match since_epoch {
            Ok(duration) => r is Ok && r->Ok_0 as nat == nanoseconds_of(duration),
            Err(e) => r == Err::<u128, SystemTimeError>(e),
        },
{
    match since_epoch {
        Ok(duration) => Ok(whole_nanoseconds(&duration)),
        Err(e) => Err(e),
    }
}

/// What a builder holds: the name, and what was set so far.
pub struct BuilderView {
    pub name: Seq<char>,
    pub fields: Option<Seq<(String, FieldValue)>>,
    pub tags: Option<Seq<(String, String)>>,
    pub unix_timestamp: Option<nat>,
}

/// What a measurement holds. The fields and the tags stand in the order of
/// their keys; the timestamp counts nanoseconds from the Unix epoch.
pub struct MeasurementView {
    pub name: Seq<char>,
    pub fields: Seq<(String, FieldValue)>,
    pub tags: Seq<(String, String)>,
    pub unix_timestamp: nat,
}

/// A tag on the line: key and value, both escaped, with `=` between them.
pub open spec fn tag_text(tag: (String, String)) -> Seq<char> {
    escaped(Grammar::Identifier, tag.0@).push('=') + escaped(Grammar::Identifier, tag.1@)
}

/// A field on the line: the escaped key, `=`, and the rendered value.
pub open spec fn field_text(field: (String, FieldValue)) -> Seq<char> {
    escaped(Grammar::Identifier, field.0@).push('=') + field.1.rendered()
}

/// The tags on the line: nothing where there are none, else a comma and the
/// tags with a comma between each two.
pub open spec fn tag_section(tags: Seq<(String, String)>) -> Seq<char> {
    if tags.len() == 0 {
        Seq::empty()
    } else {
        seq![','] + joined(tags.map_values(|tag: (String, String)| tag_text(tag)), ',')
    }
}

/// The fields on the line, with a comma between each two.
pub open spec fn field_section(fields: Seq<(String, FieldValue)>) -> Seq<char> {
    joined(fields.map_values(|field: (String, FieldValue)| field_text(field)), ',')
}

/// The line of a measurement: the escaped name, the tags, one space, the
/// fields, one space, and the timestamp in decimal digits. No newline ends it.
pub open spec fn line(m: MeasurementView) -> Seq<char> {
    escaped(Grammar::MeasurementName, m.name) + tag_section(m.tags) + seq![' '] + field_section(
        m.fields,
    ) + seq![' '] + decimal(m.unix_timestamp)
}

/// Whether a builder with these fields can be built.
pub open spec fn has_fields(fields: Option<Seq<(String, FieldValue)>>) -> bool {
    fields is Some && fields->0.len() > 0
}

/// What a builder becomes when it is built with the given timestamp.
pub open spec fn built(b: BuilderView, unix_timestamp: nat) -> MeasurementView
    recommends
        has_fields(b.fields),
{
    MeasurementView {
        name: b.name,
        fields: b.fields->0,
        tags: if b.tags is Some {
            b.tags->0
        } else {
            Seq::empty()
        },
        unix_timestamp,
    }
}

/// A measurement in the making. It is used once: `build` consumes it.
pub struct MeasurementBuilder {
    name: String,
    fields: Option<OrderedMap<FieldValue>>,
    tags: Option<OrderedMap<String>>,
    unix_timestamp: Option<u128>,
}

impl View for MeasurementBuilder {
    type V = BuilderView;

    closed spec fn view(&self) -> BuilderView {
        BuilderView {
            name: self.name@,
            fields: match self.fields {
                Some(map) => Some(map.entries()),
                None => None,
            },
            tags: match self.tags {
                Some(map) => Some(map.entries()),
                None => None,
            },
            unix_timestamp: match self.unix_timestamp {
                Some(t) => Some(t as nat),
                None => None,
            },
        }
    }
}

impl MeasurementBuilder {
    fn new(name: String) -> (builder: Self)
        ensures
            builder@ == (BuilderView {
                name: name@,
                fields: None,
                tags: None,
                unix_timestamp: None,
            }),
    {
        MeasurementBuilder { name, fields: None, tags: None, unix_timestamp: None }
    }

    /// Sets the fields. Fields that were set before are dropped.
    pub fn fields(self, fields: OrderedMap<FieldValue>) -> (builder: Self)
        ensures
            builder@ == (BuilderView { fields: Some(fields.entries()), ..self@ }),
    {
        let mut builder = self;
        builder.fields = Some(fields);
        builder
    }

    /// Sets the tags. Tags that were set before are dropped.
    pub fn tags(self, tags: OrderedMap<String>) -> (builder: Self)
        ensures
            builder@ == (BuilderView { tags: Some(tags.entries()), ..self@ }),
    {
        let mut builder = self;
        builder.tags = Some(tags);
        builder
    }

    /// Sets the timestamp to the given count of nanoseconds from the Unix
    /// epoch, or fails with the clock's error where the instant that was
    /// measured lies before the epoch.
    pub fn timestamp_since_epoch(self, since_epoch: Result<u128, SystemTimeError>) -> (r: Result<
        Self,
        Error,
    >)
        ensures
            match since_epoch {
                Ok(nanoseconds) => r is Ok && r->Ok_0@ == (BuilderView {
                    unix_timestamp: Some(nanoseconds as nat),
                    ..self@
                }),
                Err(e) => r == Err::<Self, Error>(Error::SystemTimeError(e)),
            },
    {
        match since_epoch {
            Ok(nanoseconds) => {
                let mut builder = self;
                builder.unix_timestamp = Some(nanoseconds);
                Ok(builder)
            },
            Err(e) => Err(Error::SystemTimeError(e)),
        }
    }

    /// Sets the timestamp to `timestamp`, counted in nanoseconds from the
    /// Unix epoch. Fails, with the clock's error, exactly where `timestamp`
    /// lies before the epoch.
    pub fn timestamp(self, timestamp: SystemTime) -> (r: Result<Self, Error>)
        ensures
            match duration_since_unix_epoch(timestamp) {
                Some(duration) => r is Ok && r->Ok_0@ == (BuilderView {
                    unix_timestamp: Some(nanoseconds_of(duration)),
                    ..self@
                }),
                None => r is Err && r->Err_0 is SystemTimeError,
            },
    {
        let since_epoch = unix_nanoseconds(since_unix_epoch(&timestamp));
        self.timestamp_since_epoch(since_epoch)
    }

    /// Builds the measurement, with `now` as what the clock said of the
    /// current time. Without fields, or with an empty set of fields, nothing
    /// is built. The timestamp is the one that was set, and `now` where none
    /// was; tags that were never set are empty.
    pub fn build_at(self, now: Result<u128, SystemTimeError>) -> (r: Result<Measurement, Error>)
        ensures
            !has_fields(self@.fields) ==> r == Err::<Measurement, Error>(
                Error::AtLeastOneMeasurementFieldRequired,
            ),
            has_fields(self@.fields) && self@.unix_timestamp is Some ==> r is Ok && r->Ok_0@
                == built(self@, self@.unix_timestamp->0),
            has_fields(self@.fields) && self@.unix_timestamp is None ==> match now {
                Ok(nanoseconds) => r is Ok && r->Ok_0@ == built(self@, nanoseconds as nat),
                Err(e) => r == Err::<Measurement, Error>(Error::SystemTimeError(e)),
            },
    {
        let fields = match self.fields {
            None => {
                return Err(Error::AtLeastOneMeasurementFieldRequired);
            },
            Some(map) => map,
        };
        if fields.is_empty() {
            return Err(Error::AtLeastOneMeasurementFieldRequired);
        }
        let unix_timestamp = match self.unix_timestamp {
            Some(timestamp) => timestamp,
            None => match now {
                Ok(nanoseconds) => nanoseconds,
                Err(e) => {
                    return Err(Error::SystemTimeError(e));
                },
            },
        };
        let tags = match self.tags {
            Some(map) => map,
            None => OrderedMap::new(),
        };
        Ok(Measurement { name: self.name, fields, tags, unix_timestamp })
    }

    /// Builds the measurement. Without fields, or with an empty set of
    /// fields, nothing is built. Where no timestamp was set the clock is
    /// read, and its error is returned where it reports a time before the
    /// Unix epoch.
    pub fn build(self) -> (r: Result<Measurement, Error>)
        ensures
            !has_fields(self@.fields) ==> r == Err::<Measurement, Error>(
                Error::AtLeastOneMeasurementFieldRequired,
            ),
            has_fields(self@.fields) && self@.unix_timestamp is Some ==> r is Ok && r->Ok_0@
                == built(self@, self@.unix_timestamp->0),
            has_fields(self@.fields) && self@.unix_timestamp is None ==> match r {
                Ok(m) => m@ == built(self@, m@.unix_timestamp),
                Err(e) => e is SystemTimeError,
            },
    {
        let now = match self.unix_timestamp {
            Some(timestamp) => Ok(timestamp),
            None => unix_nanoseconds(since_unix_epoch(&current_time())),
        };
        self.build_at(now)
    }
}

/// One point: a name, at least one field, tags and a timestamp. It comes from
/// a builder and is not changed afterwards.
pub struct Measurement {
    name: String,
    fields: OrderedMap<FieldValue>,
    tags: OrderedMap<String>,
    unix_timestamp: u128,
}

impl View for Measurement {
    type V = MeasurementView;

    closed spec fn view(&self) -> MeasurementView {
        MeasurementView {
            name: self.name@,
            fields: self.fields.entries(),
            tags: self.tags.entries(),
            unix_timestamp: self.unix_timestamp as nat,
        }
    }
}

impl Measurement {
    #[verifier::type_invariant]
    spec fn has_a_field(self) -> bool {
        self.fields.entries().len() > 0
    }

    /// A builder for a measurement of the given name. The name is kept as it
    /// is: escaping happens when the line is written.
    pub fn builder(name: &str) -> (builder: MeasurementBuilder)
        ensures
            builder@ == (BuilderView {
                name: name@,
                fields: None,
                tags: None,
                unix_timestamp: None,
            }),
    {
        MeasurementBuilder::new(name.to_owned())
    }

    /// The measurement as one line, without a newline at its end. Every
    /// measurement has at least one field, and its fields and tags stand in
    /// the strict order of their keys.
    pub fn to_string(&self) -> (out: String)
        ensures
            out@ == line(self@),
            self@.fields.len() > 0,
            strictly_increasing(self@.fields),
            strictly_increasing(self@.tags),
            forall|k: int|
                0 <= k < self@.fields.len() ==> (#[trigger] self@.fields[k]).1.well_formed(),
    {
        proof {
            use_type_invariant(self);
        }
        let mut out = escape_measurement_name(self.name.as_str());
        let mut optional_tags: Vec<String> = Vec::new();
        let mut i: usize = 0;
        while i < self.tags.len()
            invariant
                i <= self.tags.entries().len(),
                optional_tags.len() == i,
                forall|k: int|
                    0 <= k < i ==> (#[trigger] optional_tags[k])@ == tag_text(
                        self.tags.entries()[k],
                    ),
            decreases self.tags.entries().len() - i,
        {
            let tag = self.tags.entry(i);
            let mut text = escape_comma_equals_space(tag.0.as_str());
            push_char(&mut text, '=');
            let value = escape_comma_equals_space(tag.1.as_str());
            text.append(value.as_str());
            optional_tags.push(text);
            i += 1;
        }
        let mut fields: Vec<String> = Vec::new();
        let mut j: usize = 0;
        while j < self.fields.len()
            invariant
                j <= self.fields.entries().len(),
                fields.len() == j,
                forall|k: int|
                    0 <= k < j ==> (#[trigger] fields[k])@ == field_text(
                        self.fields.entries()[k],
                    ),
                forall|k: int|
                    0 <= k < j ==> (#[trigger] self.fields.entries()[k]).1.well_formed(),
            decreases self.fields.entries().len() - j,
        {
            let field = self.fields.entry(j);
            let mut text = escape_comma_equals_space(field.0.as_str());
            push_char(&mut text, '=');
            let value = field.1.to_string();
            text.append(value.as_str());
            fields.push(text);
            j += 1;
        }
        proof {
            assert(texts(optional_tags@) == self.tags.entries().map_values(
                |tag: (String, String)| tag_text(tag),
            ));
            assert(texts(fields@) == self.fields.entries().map_values(
                |field: (String, FieldValue)| field_text(field),
            ));
        }
        if optional_tags.len() > 0 {
            push_char(&mut out, ',');
            let tags_text = join(&optional_tags, ',');
            out.append(tags_text.as_str());
        }
        push_char(&mut out, ' ');
        let fields_text = join(&fields, ',');
        out.append(fields_text.as_str());
        push_char(&mut out, ' ');
        push_decimal(&mut out, self.unix_timestamp);
        out
    }
}

/// How often a delimiter stands in the line of a measurement whose texts
/// hold none: two spaces, a comma for each tag and field but one, and an
/// equals sign for each tag and field.
pub open spec fn delimiter_count(m: MeasurementView, c: char) -> int {
    if c == ' ' {
        2
    } else if c == ',' {
        m.tags.len() + m.fields.len() - 1
    } else {
        (m.tags.len() + m.fields.len()) as int
    }
}

/// A tag whose key and value hold no delimiter has one equals sign on the
/// line, and neither comma nor space.
pub proof fn lemma_tag_text_count(tag: (String, String), c: char)
    requires
        free_of_delimiters(tag.0@),
        free_of_delimiters(tag.1@),
        is_delimiter(c),
    ensures
        occurrences(tag_text(tag), c) == (if c == '=' {
            1nat
        } else {
            0nat
        }),
{
    let key = escaped(Grammar::Identifier, tag.0@);
    let value = escaped(Grammar::Identifier, tag.1@);
    lemma_free_count(tag.0@, c);
    lemma_free_count(tag.1@, c);
    lemma_escaped_occurrences(Grammar::Identifier, tag.0@, c);
    lemma_escaped_occurrences(Grammar::Identifier, tag.1@, c);
    assert(key.push('=').drop_last() == key);
    lemma_occurrences_concat(key.push('='), value, c);
}

/// A field whose key holds no delimiter, and whose value holds none where
/// it is a text, has one equals sign on the line, and neither comma nor
/// space.
pub proof fn lemma_field_text_count(field: (String, FieldValue), c: char)
    requires
        free_of_delimiters(field.0@),
        field.1.well_formed(),
        field.1 matches FieldValue::String(text) ==> free_of_delimiters(text@),
        is_delimiter(c),
    ensures
        occurrences(field_text(field), c) == (if c == '=' {
            1nat
        } else {
            0nat
        }),
{
    let key = escaped(Grammar::Identifier, field.0@);
    lemma_free_count(field.0@, c);
    lemma_escaped_occurrences(Grammar::Identifier, field.0@, c);
    lemma_rendered_count(field.1, c);
    assert(key.push('=').drop_last() == key);
    lemma_occurrences_concat(key.push('='), field.1.rendered(), c);
}

/// The line of a measurement has no delimiter too many and none too few:
/// where the name, the keys, the tag values and the texts of string fields
/// hold none, the line holds exactly two spaces, a comma for each tag and
/// field but one, and an equals sign for each tag and field.
pub proof fn lemma_line_delimiters(m: MeasurementView, c: char)
    requires
        m.fields.len() >= 1,
        is_delimiter(c),
        free_of_delimiters(m.name),
        forall|k: int|
            0 <= k < m.tags.len() ==> free_of_delimiters((#[trigger] m.tags[k]).0@)
                && free_of_delimiters(m.tags[k].1@),
        forall|k: int|
            0 <= k < m.fields.len() ==> free_of_delimiters((#[trigger] m.fields[k]).0@)
                && m.fields[k].1.well_formed() && (m.fields[k].1 matches FieldValue::String(text)
                ==> free_of_delimiters(text@)),
    ensures
        occurrences(line(m), c) == delimiter_count(m, c),
{
    let name = escaped(Grammar::MeasurementName, m.name);
    lemma_free_count(m.name, c);
    lemma_escaped_occurrences(Grammar::MeasurementName, m.name, c);
    let tag_texts = m.tags.map_values(|tag: (String, String)| tag_text(tag));
    let field_texts = m.fields.map_values(|field: (String, FieldValue)| field_text(field));
    let each: nat = if c == '=' {
        1
    } else {
        0
    };
    assert forall|k: int| 0 <= k < tag_texts.len() implies occurrences(
        #[trigger] tag_texts[k],
        c,
    ) == each by {
        lemma_tag_text_count(m.tags[k], c);
    }
    assert forall|k: int| 0 <= k < field_texts.len() implies occurrences(
        #[trigger] field_texts[k],
        c,
    ) == each by {
        lemma_field_text_count(m.fields[k], c);
    }
    let tags = tag_section(m.tags);
    let fields = field_section(m.fields);
    let t = m.tags.len() as int;
    let f = m.fields.len() as int;
    assert(each * t == (if c == '=' { t } else { 0 })) by (nonlinear_arith)
        requires
            each == (if c == '=' { 1nat } else { 0nat }),
    ;
    assert(each * f == (if c == '=' { f } else { 0 })) by (nonlinear_arith)
        requires
            each == (if c == '=' { 1nat } else { 0nat }),
    ;
    if m.tags.len() > 0 {
        lemma_joined_count(tag_texts, ',', c, each);
        lemma_occurrences_single(',', c);
        lemma_occurrences_concat(seq![','], joined(tag_texts, ','), c);
    }
    lemma_joined_count(field_texts, ',', c, each);
    lemma_decimal_count(m.unix_timestamp, c);
    lemma_occurrences_single(' ', c);
    lemma_occurrences_concat(name, tags, c);
    lemma_occurrences_concat(name + tags, seq![' '], c);
    lemma_occurrences_concat(name + tags + seq![' '], fields, c);
    lemma_occurrences_concat(name + tags + seq![' '] + fields, seq![' '], c);
    lemma_occurrences_concat(
        name + tags + seq![' '] + fields + seq![' '],
        decimal(m.unix_timestamp),
        c,
    );
}

/// Each tag stands on the line as one piece: its escaped key, the equals
/// sign and its escaped value.
pub proof fn lemma_line_holds_tag(m: MeasurementView, k: int)
    requires
        0 <= k < m.tags.len(),
    ensures
        has_part(line(m), tag_text(m.tags[k])),
{
    let name = escaped(Grammar::MeasurementName, m.name);
    let tag_texts = m.tags.map_values(|tag: (String, String)| tag_text(tag));
    let rest = seq![' '] + field_section(m.fields) + seq![' '] + decimal(m.unix_timestamp);
    lemma_joined_has_part(tag_texts, ',', k);
    assert(tag_texts[k] == tag_text(m.tags[k]));
    lemma_has_part_within(name + seq![','], joined(tag_texts, ','), rest, tag_text(m.tags[k]));
    assert(line(m) == (name + seq![',']) + joined(tag_texts, ',') + rest);
}

/// Each field stands on the line as one piece: its escaped key, the equals
/// sign and its rendered value.
pub proof fn lemma_line_holds_field(m: MeasurementView, k: int)
    requires
        0 <= k < m.fields.len(),
    ensures
        has_part(line(m), field_text(m.fields[k])),
{
    let head = escaped(Grammar::MeasurementName, m.name) + tag_section(m.tags) + seq![' '];
    let field_texts = m.fields.map_values(|field: (String, FieldValue)| field_text(field));
    let rest = seq![' '] + decimal(m.unix_timestamp);
    lemma_joined_has_part(field_texts, ',', k);
    assert(field_texts[k] == field_text(m.fields[k]));
    lemma_has_part_within(head, joined(field_texts, ','), rest, field_text(m.fields[k]));
    assert(line(m) == head + joined(field_texts, ',') + rest);
}

/// Whether every character of `text` lies beyond ASCII.
pub open spec fn beyond_ascii(text: Seq<char>) -> bool {
    forall|i: int| 0 <= i < text.len() ==> (#[trigger] text[i]) as int >= 128
}

/// A tag value beyond ASCII stands on the line as it is, behind the tag's
/// escaped key and the equals sign, with nothing put into it.
pub proof fn lemma_line_holds_tag_value(m: MeasurementView, k: int)
    requires
        0 <= k < m.tags.len(),
        beyond_ascii(m.tags[k].1@),
    ensures
        has_part(
            line(m),
            escaped(Grammar::Identifier, m.tags[k].0@).push('=') + m.tags[k].1@,
        ),
{
    let value = m.tags[k].1@;
    assert forall|i: int| 0 <= i < value.len() implies !is_special(
        Grammar::Identifier,
        #[trigger] value[i],
    ) by {
        assert(value[i] as int >= 128);
    }
    lemma_escaped_plain(Grammar::Identifier, value);
    lemma_line_holds_tag(m, k);
}

/// The text of a string field beyond ASCII stands on the line as it is, in
/// double quotes behind the field's escaped key and the equals sign, with
/// nothing put into it.
pub proof fn lemma_line_holds_string_field(m: MeasurementView, k: int, text: String)
    requires
        0 <= k < m.fields.len(),
        m.fields[k].1 == FieldValue::String(text),
        beyond_ascii(text@),
    ensures
        has_part(
            line(m),
            escaped(Grammar::Identifier, m.fields[k].0@).push('=') + (seq!['"'] + text@ + seq![
                '"',
            ]),
        ),
{
    assert forall|i: int| 0 <= i < text@.len() implies !is_special(
        Grammar::StringField,
        #[trigger] text@[i],
    ) by {
        assert(text@[i] as int >= 128);
    }
    lemma_escaped_plain(Grammar::StringField, text@);
    lemma_line_holds_field(m, k);
}

} // verus!
