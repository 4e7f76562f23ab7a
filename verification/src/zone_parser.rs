//! Zone files, line by line.
//!
//! A line is blank or a comment, a directive that sets the origin or the
//! time to live or names a file to include, or a record. To read the file,
//! to follow an include and to turn the text of an address into its octets
//! is left to the caller.

use vstd::prelude::*;
use vstd::utf8::encode_utf8;
use crate::record::{
    RData, RDataView, TYPE_A, TYPE_AAAA, TYPE_CNAME, TYPE_MX, TYPE_NS, TYPE_SOA, TYPE_TXT,
};
use crate::text::{
    decimal, join_text, parse_decimal, same_text, starts_with_octet, strip_final_dots,
    without_final_dots,
};

verus! {

/// The time to live of a record that states none, until a zone file sets
/// another.
pub const DEFAULT_TTL: u32 = 3600;

/// The type code of a record whose type is not known.
pub const TYPE_ANY: u16 = 255;

/// The class code of the internet.
pub const CLASS_IN: u16 = 1;

/// The class code of a record whose class is not the internet.
pub const CLASS_ANY: u16 = 255;

/// Why a line of a zone file was refused.
#[derive(Debug, Clone, PartialEq, Eq)]
pub enum ZoneParserError {
    /// A directive lacks its value, or the value is not of its kind.
    InvalidDirective(String),
    /// A directive is not known.
    UnknownDirective(String),
    /// A line is no record, or its data lack a field.
    InvalidRecord(String),
    /// A field that has to be a number is none.
    ParseIntError(String),
}

/// A refusal as mathematics.
pub enum ZoneFault {
    InvalidDirective(Seq<char>),
    UnknownDirective(Seq<char>),
    InvalidRecord(Seq<char>),
    ParseIntError(Seq<char>),
}

impl View for ZoneParserError {
    type V = ZoneFault;

    open spec fn view(&self) -> ZoneFault {
        match *self {
            ZoneParserError::InvalidDirective(s) => ZoneFault::InvalidDirective(s@),
            ZoneParserError::UnknownDirective(s) => ZoneFault::UnknownDirective(s@),
            ZoneParserError::InvalidRecord(s) => ZoneFault::InvalidRecord(s@),
            ZoneParserError::ParseIntError(s) => ZoneFault::ParseIntError(s@),
        }
    }
}

impl ZoneParserError {
    /// The refusal in words.
    pub fn to_text(&self) -> (r: String)
        ensures
            r@ == match self@ {
                ZoneFault::InvalidDirective(s) => "Invalid Directive: "@ + s,
                ZoneFault::UnknownDirective(s) => "Unknown Directive: "@ + s,
                ZoneFault::InvalidRecord(s) => "Invalid Record: "@ + s,
                ZoneFault::ParseIntError(s) => "Parse Int Error: "@ + s,
            },
    {
        match self {
            ZoneParserError::InvalidDirective(s) => join_text("Invalid Directive: ", s.as_str()),
            ZoneParserError::UnknownDirective(s) => join_text("Unknown Directive: ", s.as_str()),
            ZoneParserError::InvalidRecord(s) => join_text("Invalid Record: ", s.as_str()),
            ZoneParserError::ParseIntError(s) => join_text("Parse Int Error: ", s.as_str()),
        }
    }
}

/// The data of a record as far as a line gives them: a payload, or the text
/// of an address, which is still to be turned into its octets.
#[derive(Debug, Clone, PartialEq, Eq)]
pub enum DraftData {
    Ready(RData),
    Ipv4(String),
    Ipv6(String),
}

/// The data of a draft as mathematics.
pub enum DraftDataView {
    Ready(RDataView),
    Ipv4(Seq<char>),
    Ipv6(Seq<char>),
}

impl View for DraftData {
    type V = DraftDataView;

    open spec fn view(&self) -> DraftDataView {
        match *self {
            DraftData::Ready(d) => DraftDataView::Ready(d@),
            DraftData::Ipv4(s) => DraftDataView::Ipv4(s@),
            DraftData::Ipv6(s) => DraftDataView::Ipv6(s@),
        }
    }
}

/// A record as far as a line gives it.
#[derive(Debug, Clone, PartialEq, Eq)]
pub struct RecordDraft {
    pub name: String,
    pub rtype: u16,
    pub rclass: u16,
    pub ttl: u32,
    pub data: DraftData,
}

/// A draft as mathematics.
pub struct RecordDraftView {
    pub name: Seq<char>,
    pub rtype: u16,
    pub rclass: u16,
    pub ttl: u32,
    pub data: DraftDataView,
}

impl View for RecordDraft {
    type V = RecordDraftView;

    open spec fn view(&self) -> RecordDraftView {
        RecordDraftView {
            name: self.name@,
            rtype: self.rtype,
            rclass: self.rclass,
            ttl: self.ttl,
            data: self.data@,
        }
    }
}

/// The fields of a record line: name, time to live, class, type and data.
#[derive(Debug, Clone, PartialEq, Eq)]
pub struct RecordFields {
    pub name: String,
    pub ttl: Option<String>,
    pub class: Option<String>,
    pub rtype: String,
    pub data: String,
}

/// The characters of what may be a text.
pub open spec fn opt_chars(o: Option<String>) -> Option<Seq<char>> {
    match o {
        Some(s) => Some(s@),
        None => None,
    }
}

/// The characters of each text of a list.
pub open spec fn texts_view(v: Seq<String>) -> Seq<Seq<char>> {
    v.map_values(|s: String| s@)
}

/// The fields as mathematics: name, time to live, class, type, data.
pub open spec fn fields_view(f: RecordFields) -> (
    Seq<char>,
    Option<Seq<char>>,
    Option<Seq<char>>,
    Seq<char>,
    Seq<char>,
) {
    (f.name@, opt_chars(f.ttl), opt_chars(f.class), f.rtype@, f.data@)
}

/// The fields of what may be a record line.
pub open spec fn opt_fields_view(o: Option<RecordFields>) -> Option<
    (Seq<char>, Option<Seq<char>>, Option<Seq<char>>, Seq<char>, Seq<char>),
> {
    match o {
        Some(f) => Some(fields_view(f)),
        None => None,
    }
}

/// The text without the white space at its ends, as `str::trim` gives it.
pub uninterp spec fn trimmed(s: Seq<char>) -> Seq<char>;

/// The words of a text, as `str::split_whitespace` gives them: its parts
/// between white space, in their order.
pub uninterp spec fn words(s: Seq<char>) -> Seq<Seq<char>>;

/// The text in upper case, as `str::to_uppercase` gives it.
pub uninterp spec fn uppercased(s: Seq<char>) -> Seq<char>;

/// What the groups `groups` of the pattern `pattern` capture in `text`, as
/// `regex::Regex::captures` and `regex::Captures::name` give it: for each
/// group its part of the text, or nothing where the group took no part.
/// Nothing at all where the text does not match, or where `pattern` is no
/// pattern.
pub uninterp spec fn captures_of(
    pattern: Seq<char>,
    groups: Seq<Seq<char>>,
    text: Seq<char>,
) -> Option<Seq<Option<Seq<char>>>>;

/// The characters of what a list of groups captured.
pub open spec fn captures_view(v: Seq<Option<String>>) -> Seq<Option<Seq<char>>> {
    v.map_values(|o: Option<String>| opt_chars(o))
}

/// The characters of what may be a list of captures.
pub open spec fn opt_captures_view(o: Option<Vec<Option<String>>>) -> Option<
    Seq<Option<Seq<char>>>,
> {
    match o {
        Some(v) => Some(captures_view(v@)),
        None => None,
    }
}

/// `str::trim`: the text without leading and trailing white space.
#[verifier::external_body]
fn trim<'a>(s: &'a str) -> (r: &'a str)
    ensures
        r@ == trimmed(s@),
{
    s.trim()
}

/// `str::split_whitespace`, each word as a string of its own.
#[verifier::external_body]
fn split_words(s: &str) -> (r: Vec<String>)
    ensures
        texts_view(r@) == words(s@),
{
    s.split_whitespace().map(String::from).collect()
}

/// `str::to_uppercase`.
#[verifier::external_body]
fn to_upper(s: &str) -> (r: String)
    ensures
        r@ == uppercased(s@),
{
    s.to_uppercase()
}

/// `regex::Regex::new` of `pattern`, `regex::Regex::captures` of `text`, and
/// `regex::Captures::name` of each of `groups`, in their order: one entry
/// for each group. Nothing where the pattern is refused or the text does
/// not match.
#[verifier::external_body]
fn regex_captures(pattern: &str, groups: &Vec<String>, text: &str) -> (r: Option<
    Vec<Option<String>>,
>)
    ensures
        opt_captures_view(r) == captures_of(pattern@, texts_view(groups@), text@),
        r is Some ==> r->0@.len() == groups@.len(),
{
    let re = regex::Regex::new(pattern).ok()?;
    let caps = re.captures(text)?;
    let mut found = Vec::new();
    for group in groups {
        found.push(caps.name(group).as_ref().map(regex::Match::as_str).map(String::from));
    }
    Some(found)
}

/// The pattern of a record line: a name, then a time to live in digits and
/// a class, both of which may be left out, then a type, then the data up to
/// the end of the line; white space between them.
pub open spec fn record_pattern() -> Seq<char> {
    r"^(?P<name>\S+)\s+(?P<ttl>\d+)?\s+(?P<class>\S+)?\s+(?P<type>\S+)\s+(?P<data>.+)$"@
}

/// The groups of the pattern of a record line, in the order of the fields.
pub open spec fn record_groups() -> Seq<Seq<char>> {
    seq!["name"@, "ttl"@, "class"@, "type"@, "data"@]
}

/// The pattern of a record line.
fn pattern_of_record() -> (r: &'static str)
    ensures
        r@ == record_pattern(),
{
    r"^(?P<name>\S+)\s+(?P<ttl>\d+)?\s+(?P<class>\S+)?\s+(?P<type>\S+)\s+(?P<data>.+)$"
}

/// The groups of the pattern of a record line.
fn groups_of_record() -> (r: Vec<String>)
    ensures
        texts_view(r@) == record_groups(),
{
    let mut r: Vec<String> = Vec::new();
    r.push("name".to_owned());
    r.push("ttl".to_owned());
    r.push("class".to_owned());
    r.push("type".to_owned());
    r.push("data".to_owned());
    assert(texts_view(r@) =~= record_groups());
    r
}

/// The fields that the five groups of a record line give: the name, the
/// type and the data have to be there; the time to live and the class may
/// be left out.
pub open spec fn fields_of(found: Seq<Option<Seq<char>>>) -> Option<
    (Seq<char>, Option<Seq<char>>, Option<Seq<char>>, Seq<char>, Seq<char>),
> {
    if found.len() == 5 && found[0] is Some && found[3] is Some && found[4] is Some {
        Some((found[0]->0, found[1], found[2], found[3]->0, found[4]->0))
    } else {
        None
    }
}

/// The fields of a record line; nothing where the line is no record line.
pub open spec fn record_fields(line: Seq<char>) -> Option<
    (Seq<char>, Option<Seq<char>>, Option<Seq<char>>, Seq<char>, Seq<char>),
> {
    match captures_of(record_pattern(), record_groups(), line) {
        Some(found) => fields_of(found),
        None => None,
    }
}

/// The fields that the five groups of a record line give.
pub fn fields_from_captures(found: Vec<Option<String>>) -> (r: Option<RecordFields>)
    ensures
        opt_fields_view(r) == fields_of(captures_view(found@)),
{
    let mut found = found;
    let ghost all = captures_view(found@);
    if found.len() != 5 {
        return None;
    }
    let data = found.pop();
    let rtype = found.pop();
    let class = found.pop();
    let ttl = found.pop();
    let name = found.pop();
    match (name, ttl, class, rtype, data) {
        (Some(Some(name)), Some(ttl), Some(class), Some(Some(rtype)), Some(Some(data))) => {
            let fields = RecordFields { name, ttl, class, rtype, data };
            assert(fields_view(fields) == fields_of(all)->0);
            Some(fields)
        },
        _ => None,
    }
}

/// The fields of a record line; nothing where the line is no record line.
fn capture_record(line: &str) -> (r: Option<RecordFields>)
    ensures
        opt_fields_view(r) == record_fields(line@),
{
    let groups = groups_of_record();
    match regex_captures(pattern_of_record(), &groups, line) {
        Some(found) => fields_from_captures(found),
        None => None,
    }
}

/// The type code of a type in upper case; 255 for a type that is not known.
pub open spec fn type_code(upper: Seq<char>) -> u16 {
    if upper == "A"@ {
        TYPE_A
    } else if upper == "AAAA"@ {
        TYPE_AAAA
    } else if upper == "CNAME"@ {
        TYPE_CNAME
    } else if upper == "MX"@ {
        TYPE_MX
    } else if upper == "NS"@ {
        TYPE_NS
    } else if upper == "SOA"@ {
        TYPE_SOA
    } else if upper == "TXT"@ {
        TYPE_TXT
    } else {
        TYPE_ANY
    }
}

/// The number that the word `w` stands for, or the refusal of the word.
pub open spec fn number(w: Seq<char>, max: nat) -> Result<nat, ZoneFault> {
    match decimal(encode_utf8(w), max) {
        Some(v) => Ok(v),
        None => Err(ZoneFault::ParseIntError(w)),
    }
}

/// The refusal of data that lack a field.
pub open spec fn missing_field(data: Seq<char>) -> ZoneFault {
    ZoneFault::InvalidRecord("Missing field in record data: "@ + data)
}

/// The payload of a mail exchange: a preference and a name, the first two
/// words of the data.
pub open spec fn mx_data(data: Seq<char>, parts: Seq<Seq<char>>) -> Result<
    DraftDataView,
    ZoneFault,
> {
    if parts.len() < 1 {
        Err(missing_field(data))
    } else {
        match number(parts[0], 65535) {
            Err(e) => Err(e),
            Ok(preference) => if parts.len() < 2 {
                Err(missing_field(data))
            } else {
                Ok(
                    DraftDataView::Ready(
                        RDataView::MX { preference: preference as u16, exchange: parts[1] },
                    ),
                )
            },
        }
    }
}

/// The first `n` of the five numbers of a start of authority, which are
/// the words of the data from the third on; or the first refusal.
pub open spec fn soa_numbers(data: Seq<char>, parts: Seq<Seq<char>>, n: int) -> Result<
    Seq<u32>,
    ZoneFault,
>
    decreases n,
{
    if n <= 0 {
        Ok(Seq::empty())
    } else {
        match soa_numbers(data, parts, n - 1) {
            Err(e) => Err(e),
            Ok(before) => if parts.len() < n + 2 {
                Err(missing_field(data))
            } else {
                match number(parts[n + 1], u32::MAX as nat) {
                    Err(e) => Err(e),
                    Ok(v) => Ok(before.push(v as u32)),
                }
            },
        }
    }
}

/// The payload of a start of authority: two names and five numbers, the
/// first seven words of the data.
pub open spec fn soa_data(data: Seq<char>, parts: Seq<Seq<char>>) -> Result<
    DraftDataView,
    ZoneFault,
> {
    if parts.len() < 2 {
        Err(missing_field(data))
    } else {
        match soa_numbers(data, parts, 5) {
            Err(e) => Err(e),
            Ok(v) => Ok(
                DraftDataView::Ready(
                    RDataView::SOA {
                        mname: parts[0],
                        rname: parts[1],
                        serial: v[0],
                        refresh: v[1],
                        retry: v[2],
                        expire: v[3],
                        minimum: v[4],
                    },
                ),
            ),
        }
    }
}

/// The data of a record of the type `upper`, which is in upper case, from
/// the text `data` and its words `parts`. The text of an address is kept as
/// it is. Data of a type that is not known are kept as their octets.
pub open spec fn draft_data(upper: Seq<char>, data: Seq<char>, parts: Seq<Seq<char>>) -> Result<
    DraftDataView,
    ZoneFault,
> {
    if upper == "A"@ {
        Ok(DraftDataView::Ipv4(data))
    } else if upper == "AAAA"@ {
        Ok(DraftDataView::Ipv6(data))
    } else if upper == "CNAME"@ {
        Ok(DraftDataView::Ready(RDataView::CNAME(data)))
    } else if upper == "MX"@ {
        mx_data(data, parts)
    } else if upper == "NS"@ {
        Ok(DraftDataView::Ready(RDataView::NS(data)))
    } else if upper == "SOA"@ {
        soa_data(data, parts)
    } else if upper == "TXT"@ {
        Ok(DraftDataView::Ready(RDataView::TXT(data)))
    } else {
        Ok(DraftDataView::Ready(RDataView::Raw(encode_utf8(data))))
    }
}

/// The time to live that a record states; `default` where it states none,
/// or none that is a number of 32 bits.
pub open spec fn stated_ttl(ttl: Option<Seq<char>>, default: u32) -> u32 {
    match ttl {
        Some(t) => match decimal(encode_utf8(t), u32::MAX as nat) {
            Some(v) => v as u32,
            None => default,
        },
        None => default,
    }
}

/// The class code that a record states: the internet where it states `IN`
/// or nothing, 255 else.
pub open spec fn stated_class(class: Option<Seq<char>>) -> u16 {
    match class {
        Some(c) => if c == "IN"@ {
            CLASS_IN
        } else {
            CLASS_ANY
        },
        None => CLASS_IN,
    }
}

/// The record that the fields of a line give, with the type in upper case
/// `upper` and the words of the data `parts`.
pub open spec fn draft_of(
    f: (Seq<char>, Option<Seq<char>>, Option<Seq<char>>, Seq<char>, Seq<char>),
    upper: Seq<char>,
    parts: Seq<Seq<char>>,
    default_ttl: u32,
) -> Result<RecordDraftView, ZoneFault> {
    match draft_data(upper, f.4, parts) {
        Err(e) => Err(e),
        Ok(data) => Ok(
            RecordDraftView {
                name: f.0,
                rtype: type_code(upper),
                rclass: stated_class(f.2),
                ttl: stated_ttl(f.1, default_ttl),
                data,
            },
        ),
    }
}

/// What a record line gives.
pub open spec fn record_of(line: Seq<char>, default_ttl: u32) -> Result<
    RecordDraftView,
    ZoneFault,
> {
    match record_fields(line) {
        None => Err(ZoneFault::InvalidRecord("Failed to parse record: "@ + line)),
        Some(f) => draft_of(f, uppercased(f.3), words(f.4), default_ttl),
    }
}

/// What a directive does to the parser and asks of the caller.
pub enum DirectiveEffect {
    /// The origin is the given text from now on.
    Origin(Seq<char>),
    /// The time to live is the given number from now on.
    Ttl(u32),
    /// The file of the given name is to be read.
    Include(Seq<char>),
}

/// What the directive of a line comes to, with the words `parts` of the
/// line and the first of them in upper case, `upper`.
pub open spec fn directive_of(line: Seq<char>, parts: Seq<Seq<char>>, upper: Seq<char>) -> Result<
    DirectiveEffect,
    ZoneFault,
> {
    if parts.len() < 1 {
        Err(ZoneFault::InvalidDirective("Missing directive: "@ + line))
    } else if upper == "$ORIGIN"@ {
        if parts.len() < 2 {
            Err(ZoneFault::InvalidDirective("$ORIGIN missing value: "@ + line))
        } else {
            Ok(
                DirectiveEffect::Origin(
                    vstd::utf8::decode_utf8(without_final_dots(encode_utf8(parts[1]))),
                ),
            )
        }
    } else if upper == "$TTL"@ {
        if parts.len() < 2 {
            Err(ZoneFault::InvalidDirective("$TTL missing value: "@ + line))
        } else {
            match decimal(encode_utf8(parts[1]), u32::MAX as nat) {
                Some(v) => Ok(DirectiveEffect::Ttl(v as u32)),
                None => Err(ZoneFault::InvalidDirective("Invalid TTL value: "@ + parts[1])),
            }
        }
    } else if upper == "$INCLUDE"@ {
        if parts.len() < 2 {
            Err(ZoneFault::InvalidDirective("$INCLUDE missing file path: "@ + line))
        } else {
            Ok(DirectiveEffect::Include(parts[1]))
        }
    } else if upper == "$GENERATE"@ {
        Err(ZoneFault::InvalidDirective("$GENERATE is not supported: "@ + line))
    } else {
        Err(ZoneFault::UnknownDirective("Unknown directive: "@ + parts[0]))
    }
}

/// What a line of a zone file gives.
#[derive(Debug, Clone, PartialEq, Eq)]
pub enum ZoneLine {
    /// Nothing: the line is blank or a comment.
    Blank,
    /// A directive that has set the origin or the time to live.
    Directive,
    /// A directive that asks to read the file of this name.
    Include(String),
    /// A record.
    Entry(RecordDraft),
}

/// What a line gives, as mathematics.
pub enum ZoneLineView {
    Blank,
    Directive,
    Include(Seq<char>),
    Entry(RecordDraftView),
}

impl View for ZoneLine {
    type V = ZoneLineView;

    open spec fn view(&self) -> ZoneLineView {
        match *self {
            ZoneLine::Blank => ZoneLineView::Blank,
            ZoneLine::Directive => ZoneLineView::Directive,
            ZoneLine::Include(s) => ZoneLineView::Include(s@),
            ZoneLine::Entry(d) => ZoneLineView::Entry(d@),
        }
    }
}

/// The octet that opens a comment.
pub const SEMICOLON: u8 = 59;

/// The octet that opens a directive.
pub const DOLLAR: u8 = 36;

/// The text begins with the octet `b`.
pub open spec fn begins_with(s: Seq<char>, b: u8) -> bool {
    encode_utf8(s).len() > 0 && encode_utf8(s)[0] == b
}

/// What a zone file has set so far: the origin of its names and the time to
/// live of records that state none.
pub struct ZoneParser {
    origin: String,
    ttl: u32,
}

/// The number of a word, or the refusal of the word.
fn parse_number(w: &str, max: u32) -> (r: Result<u32, ZoneParserError>)
    ensures
        match number(w@, max as nat) {
            Ok(v) => r is Ok && r->Ok_0 == v,
            Err(e) => r is Err && r->Err_0@ == e,
        },
{
    match parse_decimal(w.as_bytes(), max) {
        Some(v) => Ok(v),
        None => Err(ZoneParserError::ParseIntError(w.to_owned())),
    }
}

/// The refusal of data that lack a field.
fn refuse_missing_field(data: &str) -> (r: ZoneParserError)
    ensures
        r@ == missing_field(data@),
{
    ZoneParserError::InvalidRecord(join_text("Missing field in record data: ", data))
}

/// The payload of a mail exchange.
fn read_mx(data: &str, parts: &Vec<String>) -> (r: Result<DraftData, ZoneParserError>)
    ensures
        match mx_data(data@, texts_view(parts@)) {
            Ok(d) => r is Ok && r->Ok_0@ == d,
            Err(e) => r is Err && r->Err_0@ == e,
        },
{
    if parts.len() < 1 {
        return Err(refuse_missing_field(data));
    }
    let preference = parse_number(parts[0].as_str(), 65535)?;
    if parts.len() < 2 {
        return Err(refuse_missing_field(data));
    }
    Ok(DraftData::Ready(RData::MX { preference: preference as u16, exchange: parts[1].clone() }))
}

/// The payload of a start of authority.
fn read_soa(data: &str, parts: &Vec<String>) -> (r: Result<DraftData, ZoneParserError>)
    ensures
        match soa_data(data@, texts_view(parts@)) {
            Ok(d) => r is Ok && r->Ok_0@ == d,
            Err(e) => r is Err && r->Err_0@ == e,
        },
{
    if parts.len() < 2 {
        return Err(refuse_missing_field(data));
    }
    let ghost ps = texts_view(parts@);
    let mut numbers: Vec<u32> = Vec::new();
    let mut n: usize = 0;
    while n < 5
        invariant
            n <= 5,
            ps == texts_view(parts@),
            soa_numbers(data@, ps, n as int) == Ok::<Seq<u32>, ZoneFault>(numbers@),
            numbers@.len() == n,
        decreases 5 - n,
    {
        if parts.len() < n + 3 {
            proof {
                lemma_soa_numbers_stay(data@, ps, n + 1, 5);
            }
            return Err(refuse_missing_field(data));
        }
        match parse_number(parts[n + 2].as_str(), u32::MAX) {
            Err(e) => {
                proof {
                    lemma_soa_numbers_stay(data@, ps, n + 1, 5);
                }
                return Err(e);
            },
            Ok(v) => {
                numbers.push(v);
            },
        }
        n = n + 1;
    }
    Ok(
        DraftData::Ready(
            RData::SOA {
                mname: parts[0].clone(),
                rname: parts[1].clone(),
                serial: numbers[0],
                refresh: numbers[1],
                retry: numbers[2],
                expire: numbers[3],
                minimum: numbers[4],
            },
        ),
    )
}

/// A refusal among the first numbers is that of every longer run.
proof fn lemma_soa_numbers_stay(data: Seq<char>, parts: Seq<Seq<char>>, i: int, n: int)
    requires
        0 <= i <= n,
        soa_numbers(data, parts, i) is Err,
    ensures
        soa_numbers(data, parts, n) == soa_numbers(data, parts, i),
    decreases n - i,
{
    if i < n {
        lemma_soa_numbers_stay(data, parts, i, n - 1);
    }
}

/// The data of a record of the type `upper`.
fn read_data(upper: &str, data: &str, parts: &Vec<String>) -> (r: Result<
    DraftData,
    ZoneParserError,
>)
    ensures
        match draft_data(upper@, data@, texts_view(parts@)) {
            Ok(d) => r is Ok && r->Ok_0@ == d,
            Err(e) => r is Err && r->Err_0@ == e,
        },
{
    if same_text(upper, "A") {
        Ok(DraftData::Ipv4(data.to_owned()))
    } else if same_text(upper, "AAAA") {
        Ok(DraftData::Ipv6(data.to_owned()))
    } else if same_text(upper, "CNAME") {
        Ok(DraftData::Ready(RData::CNAME(data.to_owned())))
    } else if same_text(upper, "MX") {
        read_mx(data, parts)
    } else if same_text(upper, "NS") {
        Ok(DraftData::Ready(RData::NS(data.to_owned())))
    } else if same_text(upper, "SOA") {
        read_soa(data, parts)
    } else if same_text(upper, "TXT") {
        Ok(DraftData::Ready(RData::TXT(data.to_owned())))
    } else {
        Ok(DraftData::Ready(RData::Raw(vstd::slice::slice_to_vec(data.as_bytes()))))
    }
}

/// The type code of a type in upper case.
fn read_type(upper: &str) -> (r: u16)
    ensures
        r == type_code(upper@),
{
    if same_text(upper, "A") {
        TYPE_A
    } else if same_text(upper, "AAAA") {
        TYPE_AAAA
    } else if same_text(upper, "CNAME") {
        TYPE_CNAME
    } else if same_text(upper, "MX") {
        TYPE_MX
    } else if same_text(upper, "NS") {
        TYPE_NS
    } else if same_text(upper, "SOA") {
        TYPE_SOA
    } else if same_text(upper, "TXT") {
        TYPE_TXT
    } else {
        TYPE_ANY
    }
}

impl ZoneParser {
    /// The origin that the zone file has set.
    pub closed spec fn spec_origin(&self) -> Seq<char> {
        self.origin@
    }

    /// The time to live that the zone file has set.
    pub closed spec fn spec_ttl(&self) -> u32 {
        self.ttl
    }

    /// A parser for a zone file that has set nothing yet: no origin, and a
    /// time to live of 3600 seconds.
    pub fn new() -> (p: ZoneParser)
        ensures
            p.spec_origin() == Seq::<char>::empty(),
            p.spec_ttl() == DEFAULT_TTL,
    {
        ZoneParser { origin: String::new(), ttl: DEFAULT_TTL }
    }

    /// The origin that the zone file has set.
    pub fn origin(&self) -> (r: &str)
        ensures
            r@ == self.spec_origin(),
    {
        self.origin.as_str()
    }

    /// The time to live that the zone file has set.
    pub fn ttl(&self) -> (r: u32)
        ensures
            r == self.spec_ttl(),
    {
        self.ttl
    }

    /// The record that the fields of a line give, with the type in upper
    /// case `upper` and the words of the data `parts`. A record that states
    /// no time to live has the one that the zone file has set.
    pub fn draft_record(&self, fields: &RecordFields, upper: &str, parts: &Vec<String>) -> (r:
        Result<RecordDraft, ZoneParserError>)
        ensures
            match draft_of(fields_view(*fields), upper@, texts_view(parts@), self.spec_ttl()) {
                Ok(d) => r is Ok && r->Ok_0@ == d,
                Err(e) => r is Err && r->Err_0@ == e,
            },
    {
        let ttl: u32 = match &fields.ttl {
            Some(t) => match parse_decimal(t.as_str().as_bytes(), u32::MAX) {
                Some(v) => v,
                None => self.ttl,
            },
            None => self.ttl,
        };
        let rclass: u16 = match &fields.class {
            Some(c) => if same_text(c.as_str(), "IN") {
                CLASS_IN
            } else {
                CLASS_ANY
            },
            None => CLASS_IN,
        };
        let rtype = read_type(upper);
        let data = read_data(upper, fields.data.as_str(), parts)?;
        Ok(RecordDraft { name: fields.name.clone(), rtype, rclass, ttl, data })
    }

    /// Reads a record line: name, time to live, class, type and data, of
    /// which the time to live and the class may be left out.
    pub fn parse_record(&self, line: &str) -> (r: Result<RecordDraft, ZoneParserError>)
        ensures
            match record_of(line@, self.spec_ttl()) {
                Ok(d) => r is Ok && r->Ok_0@ == d,
                Err(e) => r is Err && r->Err_0@ == e,
            },
    {
        match capture_record(line) {
            None => Err(ZoneParserError::InvalidRecord(join_text("Failed to parse record: ", line))),
            Some(fields) => {
                let upper = to_upper(fields.rtype.as_str());
                let parts = split_words(fields.data.as_str());
                self.draft_record(&fields, upper.as_str(), &parts)
            },
        }
    }

    /// Carries out the directive of a line, with the words `parts` of the
    /// line and the first of them in upper case, `upper`: sets the origin,
    /// without the dots at its end, or the time to live, or gives the name
    /// of the file to include. A directive that is refused sets nothing.
    pub fn apply_directive(&mut self, line: &str, parts: &Vec<String>, upper: &str) -> (r: Result<
        Option<String>,
        ZoneParserError,
    >)
        ensures
            match directive_of(line@, texts_view(parts@), upper@) {
                Ok(DirectiveEffect::Origin(o)) => r is Ok && r->Ok_0 is None
                    && final(self).spec_origin() == o && final(self).spec_ttl() == old(self).spec_ttl(),
                Ok(DirectiveEffect::Ttl(t)) => r is Ok && r->Ok_0 is None
                    && final(self).spec_origin() == old(self).spec_origin()
                    && final(self).spec_ttl() == t,
                Ok(DirectiveEffect::Include(path)) => r is Ok && opt_chars(r->Ok_0) == Some(path)
                    && final(self).spec_origin() == old(self).spec_origin()
                    && final(self).spec_ttl() == old(self).spec_ttl(),
                Err(e) => r is Err && r->Err_0@ == e && final(self).spec_origin() == old(self).spec_origin() && final(self).spec_ttl() == old(self).spec_ttl(),
            },
    {
        broadcast use vstd::utf8::encode_utf8_decode_utf8;

        if parts.len() < 1 {
            return Err(ZoneParserError::InvalidDirective(join_text("Missing directive: ", line)));
        }
        if same_text(upper, "$ORIGIN") {
            if parts.len() < 2 {
                return Err(
                    ZoneParserError::InvalidDirective(join_text("$ORIGIN missing value: ", line)),
                );
            }
            self.origin = strip_final_dots(parts[1].as_str());
            Ok(None)
        } else if same_text(upper, "$TTL") {
            if parts.len() < 2 {
                return Err(
                    ZoneParserError::InvalidDirective(join_text("$TTL missing value: ", line)),
                );
            }
            match parse_decimal(parts[1].as_str().as_bytes(), u32::MAX) {
                Some(v) => {
                    self.ttl = v;
                    Ok(None)
                },
                None => Err(
                    ZoneParserError::InvalidDirective(
                        join_text("Invalid TTL value: ", parts[1].as_str()),
                    ),
                ),
            }
        } else if same_text(upper, "$INCLUDE") {
            if parts.len() < 2 {
                return Err(
                    ZoneParserError::InvalidDirective(
                        join_text("$INCLUDE missing file path: ", line),
                    ),
                );
            }
            Ok(Some(parts[1].clone()))
        } else if same_text(upper, "$GENERATE") {
            Err(ZoneParserError::InvalidDirective(join_text("$GENERATE is not supported: ", line)))
        } else {
            Err(
                ZoneParserError::UnknownDirective(
                    join_text("Unknown directive: ", parts[0].as_str()),
                ),
            )
        }
    }

    /// Carries out the directive of a line: `$ORIGIN`, `$TTL` or
    /// `$INCLUDE`, in upper or lower case, and its value.
    pub fn handle_directive(&mut self, line: &str) -> (r: Result<Option<String>, ZoneParserError>)
        ensures
            match directive_of(line@, words(line@), first_upper(words(line@))) {
                Ok(DirectiveEffect::Origin(o)) => r is Ok && r->Ok_0 is None
                    && final(self).spec_origin() == o && final(self).spec_ttl() == old(self).spec_ttl(),
                Ok(DirectiveEffect::Ttl(t)) => r is Ok && r->Ok_0 is None
                    && final(self).spec_origin() == old(self).spec_origin()
                    && final(self).spec_ttl() == t,
                Ok(DirectiveEffect::Include(path)) => r is Ok && opt_chars(r->Ok_0) == Some(path)
                    && final(self).spec_origin() == old(self).spec_origin()
                    && final(self).spec_ttl() == old(self).spec_ttl(),
                Err(e) => r is Err && r->Err_0@ == e && final(self).spec_origin() == old(self).spec_origin() && final(self).spec_ttl() == old(self).spec_ttl(),
            },
    {
        let parts = split_words(line);
        if parts.len() < 1 {
            return Err(ZoneParserError::InvalidDirective(join_text("Missing directive: ", line)));
        }
        let upper = to_upper(parts[0].as_str());
        self.apply_directive(line, &parts, upper.as_str())
    }

    /// Reads one line of a zone file. A line that is blank or begins with a
    /// semicolon gives nothing. A line that begins with a dollar sign is a
    /// directive. Any other line is a record. White space at the ends of
    /// the line does not count.
    pub fn parse_line(&mut self, line: &str) -> (r: Result<ZoneLine, ZoneParserError>)
        ensures
            line_read(old(self).spec_origin(), old(self).spec_ttl(), trimmed(line@), r, final(self).spec_origin(), final(self).spec_ttl()),
    {
        let text = trim(line);
        self.read_trimmed(text)
    }

    /// Reads one line of a zone file that has no white space at its ends.
    pub fn read_trimmed(&mut self, text: &str) -> (r: Result<ZoneLine, ZoneParserError>)
        ensures
            line_read(old(self).spec_origin(), old(self).spec_ttl(), text@, r, final(self).spec_origin(), final(self).spec_ttl()),
    {
        if text.as_bytes().len() == 0 || starts_with_octet(text, SEMICOLON) {
            return Ok(ZoneLine::Blank);
        }
        if starts_with_octet(text, DOLLAR) {
            return match self.handle_directive(text) {
                Ok(Some(path)) => Ok(ZoneLine::Include(path)),
                Ok(None) => Ok(ZoneLine::Directive),
                Err(e) => Err(e),
            };
        }
        match self.parse_record(text) {
            Ok(draft) => Ok(ZoneLine::Entry(draft)),
            Err(e) => Err(e),
        }
    }
}

/// The first word in upper case; the empty text where there is no word.
pub open spec fn first_upper(parts: Seq<Seq<char>>) -> Seq<char> {
    if parts.len() < 1 {
        Seq::empty()
    } else {
        uppercased(parts[0])
    }
}

/// Reading the line `text`, which has no white space at its ends, with
/// `origin` and `ttl` set, gives `r` and leaves `origin2` and `ttl2` set.
pub open spec fn line_read(
    origin: Seq<char>,
    ttl: u32,
    text: Seq<char>,
    r: Result<ZoneLine, ZoneParserError>,
    origin2: Seq<char>,
    ttl2: u32,
) -> bool {
    if encode_utf8(text).len() == 0 || begins_with(text, SEMICOLON) {
        r is Ok && r->Ok_0@ == ZoneLineView::Blank && origin2 == origin && ttl2 == ttl
    } else if begins_with(text, DOLLAR) {
        match directive_of(text, words(text), first_upper(words(text))) {
            Ok(DirectiveEffect::Origin(o)) => r is Ok && r->Ok_0@ == ZoneLineView::Directive
                && origin2 == o && ttl2 == ttl,
            Ok(DirectiveEffect::Ttl(t)) => r is Ok && r->Ok_0@ == ZoneLineView::Directive
                && origin2 == origin && ttl2 == t,
            Ok(DirectiveEffect::Include(path)) => r is Ok && r->Ok_0@ == ZoneLineView::Include(
                path,
            ) && origin2 == origin && ttl2 == ttl,
            Err(e) => r is Err && r->Err_0@ == e && origin2 == origin && ttl2 == ttl,
        }
    } else {
        origin2 == origin && ttl2 == ttl && match record_of(text, ttl) {
            Ok(d) => r is Ok && r->Ok_0@ == ZoneLineView::Entry(d),
            Err(e) => r is Err && r->Err_0@ == e,
        }
    }
}

} // verus!
