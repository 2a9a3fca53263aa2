//! The definition of an index as it is shown and sent: its fields, its windows and its source.
use vstd::prelude::*;
use vstd::string::*;

use crate::query::is_one_of;
use crate::text::same;

verus! {

/// The type of a field.
#[derive(Debug, Clone, Copy, PartialEq, Eq, Structural)]
pub enum FieldType {
    Text,
    Keyword,
    Long,
    Double,
    Bool,
    Date,
    Ip,
    Vector,
    Variant,
}

/// How a source writes times.
#[derive(Debug, Clone, Copy, PartialEq, Eq, Structural)]
pub enum TimeFormat {
    EpochSeconds,
    EpochMillis,
    EpochMicros,
    EpochNanos,
    Rfc3339,
    DateOnly,
}

/// The type of a source column.
#[derive(Debug, Clone, Copy, PartialEq, Eq, Structural)]
pub enum SourceType {
    Text,
    Long,
    Double,
    Bool,
    Date,
    Binary,
    Other,
}

/// How long a window is.
#[derive(Debug, Clone, Copy, PartialEq, Eq, Structural)]
pub enum WindowGranularity {
    Hourly,
    Daily,
    Weekly,
}

/// A field of an index.
#[derive(Debug)]
pub struct ResolvedField {
    pub path: String,
    pub ty: FieldType,
    pub analyzer: Option<String>,
    pub fast: bool,
    pub cached: bool,
    pub sensitive: bool,
    pub max_bytes: Option<u64>,
    pub format: Option<TimeFormat>,
}

/// How an index is cut into windows of time.
#[derive(Debug)]
pub struct TimeWindowing {
    pub field: String,
    pub granularity: WindowGranularity,
    pub event_time_field: Option<String>,
    pub hot_windows: Option<u32>,
}

/// The definition of an index.
#[derive(Debug)]
pub struct ResolvedIndex {
    pub name: String,
    pub partition_fields: Vec<String>,
    pub identifier_fields: Vec<String>,
    pub fields: Vec<ResolvedField>,
    pub windowing: Option<TimeWindowing>,
}

/// A field as it is shown.
#[derive(Debug)]
pub struct FieldMapping {
    pub path: String,
    pub ty: &'static str,
    pub analyzer: String,
    pub fast: bool,
    pub cached: bool,
    /// Whether the field is part of the key.
    pub pk: bool,
    /// Why the field cannot be cached; empty where it can.
    pub blocked: &'static str,
    pub field_format: &'static str,
}

/// The windows of an index as they are sent.
#[derive(Debug)]
pub struct WindowingConfig {
    pub field: String,
    pub granularity: &'static str,
    pub event_time_field: String,
    pub hot_windows: u32,
    pub has_hot_windows: bool,
    pub field_format: &'static str,
}

/// The name of a field type.
pub open spec fn field_type_name(ty: FieldType) -> Seq<char> {
    match ty {
        FieldType::Text => "TEXT"@,
        FieldType::Keyword => "KEYWORD"@,
        FieldType::Long => "LONG"@,
        FieldType::Double => "DOUBLE"@,
        FieldType::Bool => "BOOL"@,
        FieldType::Date => "DATE"@,
        FieldType::Ip => "IP"@,
        FieldType::Vector => "VECTOR"@,
        FieldType::Variant => "VARIANT"@,
    }
}

/// The name of a time format.
pub open spec fn format_name(f: TimeFormat) -> Seq<char> {
    match f {
        TimeFormat::EpochSeconds => "epoch_seconds"@,
        TimeFormat::EpochMillis => "epoch_millis"@,
        TimeFormat::EpochMicros => "epoch_micros"@,
        TimeFormat::EpochNanos => "epoch_nanos"@,
        TimeFormat::Rfc3339 => "rfc3339"@,
        TimeFormat::DateOnly => "date"@,
    }
}

/// The name of a time format, or nothing where there is none.
pub open spec fn format_text(f: Option<TimeFormat>) -> Seq<char> {
    match f {
        Some(f) => format_name(f),
        None => ""@,
    }
}

/// The name of a source type.
pub open spec fn source_type_name(ty: SourceType) -> Seq<char> {
    match ty {
        SourceType::Text => "string"@,
        SourceType::Long => "long"@,
        SourceType::Double => "double"@,
        SourceType::Bool => "bool"@,
        SourceType::Date => "date"@,
        SourceType::Binary => "binary"@,
        SourceType::Other => "other"@,
    }
}

/// The name of a granularity.
pub open spec fn granularity_name(g: WindowGranularity) -> Seq<char> {
    match g {
        WindowGranularity::Hourly => "hourly"@,
        WindowGranularity::Daily => "daily"@,
        WindowGranularity::Weekly => "weekly"@,
    }
}

/// Why a field cannot be cached, where `cap` is the size up to which fields are.
pub open spec fn blocked_text(f: ResolvedField, cap: u64) -> Seq<char> {
    if f.sensitive {
        "sensitive (D23)"@
    } else if f.max_bytes is Some && f.max_bytes->0 > cap {
        "big text (D23)"@
    } else {
        ""@
    }
}

/// Whether `m` shows the field `f` of `def`.
pub open spec fn maps(m: FieldMapping, f: ResolvedField, def: ResolvedIndex, cap: u64) -> bool {
    &&& m.path@ == f.path@
    &&& m.ty@ == field_type_name(f.ty)
    &&& m.analyzer@ == (match f.analyzer {
        Some(a) => a@,
        None => Seq::empty(),
    })
    &&& m.fast == f.fast
    &&& m.cached == f.cached
    &&& m.pk == (def.identifier_fields.deep_view().contains(f.path@)
        || def.partition_fields.deep_view().contains(f.path@))
    &&& m.blocked@ == blocked_text(f, cap)
    &&& m.field_format@ == format_text(f.format)
}

fn type_str(ty: FieldType) -> (s: &'static str)
    ensures
        s@ == field_type_name(ty),
{
    match ty {
        FieldType::Text => "TEXT",
        FieldType::Keyword => "KEYWORD",
        FieldType::Long => "LONG",
        FieldType::Double => "DOUBLE",
        FieldType::Bool => "BOOL",
        FieldType::Date => "DATE",
        FieldType::Ip => "IP",
        FieldType::Vector => "VECTOR",
        FieldType::Variant => "VARIANT",
    }
}

/// The name of a time format.
pub fn time_format_str(f: TimeFormat) -> (s: &'static str)
    ensures
        s@ == format_name(f),
{
    match f {
        TimeFormat::EpochSeconds => "epoch_seconds",
        TimeFormat::EpochMillis => "epoch_millis",
        TimeFormat::EpochMicros => "epoch_micros",
        TimeFormat::EpochNanos => "epoch_nanos",
        TimeFormat::Rfc3339 => "rfc3339",
        TimeFormat::DateOnly => "date",
    }
}

fn format_str(f: Option<TimeFormat>) -> (s: &'static str)
    ensures
        s@ == format_text(f),
{
    match f {
        Some(f) => time_format_str(f),
        None => "",
    }
}

/// The name of a source type.
pub fn source_type_str(ty: SourceType) -> (s: &'static str)
    ensures
        s@ == source_type_name(ty),
{
    match ty {
        SourceType::Text => "string",
        SourceType::Long => "long",
        SourceType::Double => "double",
        SourceType::Bool => "bool",
        SourceType::Date => "date",
        SourceType::Binary => "binary",
        SourceType::Other => "other",
    }
}

/// Whether `out` shows the fields of an index, where fields of up to `cap` bytes are cached.
pub open spec fn maps_fields(out: Seq<FieldMapping>, def: ResolvedIndex, cap: u64) -> bool {
    out.len() == def.fields@.len() && forall|i: int|
        0 <= i < out.len() ==> maps(#[trigger] out[i], def.fields@[i], def, cap)
}

/// The fields of an index as they are shown, where fields of up to `cap` bytes are cached.
pub fn field_mappings(def: &ResolvedIndex, cap: u64) -> (out: Vec<FieldMapping>)
    ensures
        maps_fields(out@, *def, cap),
{
    let mut out: Vec<FieldMapping> = Vec::new();
    let mut i: usize = 0;
    while i < def.fields.len()
        invariant
            i <= def.fields@.len(),
            out@.len() == i,
            forall|k: int| 0 <= k < i ==> maps(#[trigger] out@[k], def.fields@[k], *def, cap),
        decreases def.fields@.len() - i,
    {
        let f = &def.fields[i];
        let big = match f.max_bytes {
            Some(n) => n > cap,
            None => false,
        };
        let blocked = if f.sensitive {
            "sensitive (D23)"
        } else if big {
            "big text (D23)"
        } else {
            ""
        };
        let analyzer = match &f.analyzer {
            Some(a) => a.clone(),
            None => String::new(),
        };
        let pk = is_one_of(f.path.as_str(), &def.identifier_fields) || is_one_of(
            f.path.as_str(),
            &def.partition_fields,
        );
        out.push(
            FieldMapping {
                path: f.path.clone(),
                ty: type_str(f.ty),
                analyzer,
                fast: f.fast,
                cached: f.cached,
                pk,
                blocked,
                field_format: format_str(f.format),
            },
        );
        i = i + 1;
    }
    out
}

/// The time format of the first field at `path`.
pub open spec fn format_at(fields: Seq<ResolvedField>, path: Seq<char>) -> Option<TimeFormat>
    decreases fields.len(),
{
    if fields.len() == 0 {
        None
    } else if fields[0].path@ == path {
        fields[0].format
    } else {
        format_at(fields.drop_first(), path)
    }
}

fn find_format(fields: &Vec<ResolvedField>, path: &str) -> (f: Option<TimeFormat>)
    ensures
        f == format_at(fields@, path@),
{
    let mut i: usize = 0;
    assert(fields@.skip(0) =~= fields@);
    while i < fields.len()
        invariant
            i <= fields@.len(),
            format_at(fields@, path@) == format_at(fields@.skip(i as int), path@),
        decreases fields@.len() - i,
    {
        assert(fields@.skip(i as int)[0] == fields@[i as int]);
        assert(fields@.skip(i as int).drop_first() =~= fields@.skip(i + 1));
        if same(fields[i].path.as_str(), path) {
            return fields[i].format;
        }
        i = i + 1;
    }
    None
}

/// Whether `c` sends the windows of an index; none where it is not windowed.
pub open spec fn sends_windows(c: Option<WindowingConfig>, def: ResolvedIndex) -> bool {
    match def.windowing {
        None => c is None,
        Some(w) => c matches Some(c) && {
            &&& c.field@ == w.field@
            &&& c.granularity@ == granularity_name(w.granularity)
            &&& c.event_time_field@ == (match w.event_time_field {
                Some(f) => f@,
                None => Seq::empty(),
            })
            &&& c.has_hot_windows == w.hot_windows is Some
            &&& c.hot_windows == (match w.hot_windows {
                Some(n) => n,
                None => 0,
            })
            &&& c.field_format@ == format_text(format_at(def.fields@, w.field@))
        },
    }
}

/// The windows of an index as they are sent.
pub fn windowing_config(def: &ResolvedIndex) -> (c: Option<WindowingConfig>)
    ensures
        sends_windows(c, *def),
{
    match &def.windowing {
        None => None,
        Some(w) => {
            let granularity = match w.granularity {
                WindowGranularity::Hourly => "hourly",
                WindowGranularity::Daily => "daily",
                WindowGranularity::Weekly => "weekly",
            };
            let event_time_field = match &w.event_time_field {
                Some(f) => f.clone(),
                None => String::new(),
            };
            let (hot_windows, has_hot_windows) = match w.hot_windows {
                Some(n) => (n, true),
                None => (0u32, false),
            };
            Some(
                WindowingConfig {
                    field: w.field.clone(),
                    granularity,
                    event_time_field,
                    hot_windows,
                    has_hot_windows,
                    field_format: format_str(find_format(&def.fields, w.field.as_str())),
                },
            )
        },
    }
}

} // verus!
