use vstd::prelude::*;

use crate::errors::FdeError;

verus! {

/// One entry of the vendor pin table: a physical pin name and the bit index
/// the vendor assigns to it.
#[derive(Debug)]
pub struct PinEntry {
    pub name: String,
    pub index: i32,
}

impl Clone for PinEntry {
    fn clone(&self) -> (r: Self)
        ensures
            r == *self,
    {
        PinEntry { name: self.name.clone(), index: self.index }
    }
}

/// The vendor pin table, split into the `input` and the `output` section.
/// Lookups scan the entries in order and take the first matching name.
#[derive(Debug)]
pub struct PortMappings {
    pub input: Vec<PinEntry>,
    pub output: Vec<PinEntry>,
}

/// The bit index bound to `name`, taken from the first entry that carries
/// that name; `None` when no entry does.
pub open spec fn spec_lookup(entries: Seq<PinEntry>, name: Seq<char>) -> Option<i32>
    decreases entries.len(),
{
    if entries.len() == 0 {
        None
    } else if entries.first().name@ == name {
        Some(entries.first().index)
    } else {
        spec_lookup(entries.drop_first(), name)
    }
}

/// Scans a pin table for `name` and returns the first bound index.
pub fn lookup_pin(entries: &Vec<PinEntry>, name: &String) -> (r: Option<i32>)
    ensures
        r == spec_lookup(entries@, name@),
{
    let n = entries.len();
    let mut i: usize = 0;
    assert(entries@.skip(0) =~= entries@);
    while i < n
        invariant
            n == entries@.len(),
            i <= n,
            spec_lookup(entries@, name@) == spec_lookup(entries@.skip(i as int), name@),
        decreases n - i,
    {
        assert(entries@.skip(i as int).first() == entries@[i as int]);
        if entries[i].name == *name {
            return Some(entries[i].index);
        }
        assert(entries@.skip(i as int).drop_first() =~= entries@.skip(i as int + 1));
        i = i + 1;
    }
    assert(entries@.skip(n as int).len() == 0);
    None
}

fn clone_pin_entries(entries: &Vec<PinEntry>) -> (r: Vec<PinEntry>)
    ensures
        r@ =~= entries@,
{
    let mut out: Vec<PinEntry> = Vec::new();
    let n = entries.len();
    let mut i: usize = 0;
    while i < n
        invariant
            n == entries@.len(),
            i <= n,
            out@ =~= entries@.take(i as int),
        decreases n - i,
    {
        out.push(entries[i].clone());
        assert(out@ =~= entries@.take(i as int + 1));
        i = i + 1;
    }
    assert(entries@.take(n as int) =~= entries@);
    out
}

impl Clone for PortMappings {
    fn clone(&self) -> (r: Self)
        ensures
            r.input@ == self.input@,
            r.output@ == self.output@,
    {
        PortMappings {
            input: clone_pin_entries(&self.input),
            output: clone_pin_entries(&self.output),
        }
    }
}

/// A parsed JSON document, reduced to what the pin-mapping format needs:
/// objects and integers are kept in full, every other number is only told
/// apart as `Other`.
#[derive(Debug)]
pub enum JsonVal {
    Null,
    Bool(bool),
    Int(i64),
    Str(String),
    Arr(Vec<JsonVal>),
    Obj(Vec<(String, JsonVal)>),
    Other,
}

/// What serde_json's parser yields on a given text, reduced to `JsonVal`;
/// `None` where the text is not valid JSON. The parse depends on the text
/// alone.
pub uninterp spec fn json_doc_of(s: Seq<char>) -> Option<JsonVal>;

#[verifier::external_type_specification]
#[verifier::external_body]
pub struct ExJsonValue(serde_json::Value);

/// Relies on serde_json::Value's variants alone: each is carried over to
/// the library's own tree, one arm per variant, fields moved as they are.
#[verifier::external_body]
fn json_of_value(v: serde_json::Value) -> JsonVal {
    match v {
        serde_json::Value::Null => JsonVal::Null,
        serde_json::Value::Bool(b) => JsonVal::Bool(b),
        serde_json::Value::Number(n) => match n.as_i64() {
            Some(i) => JsonVal::Int(i),
            None => JsonVal::Other,
        },
        serde_json::Value::String(s) => JsonVal::Str(s),
        serde_json::Value::Array(a) => JsonVal::Arr(a.into_iter().map(json_of_value).collect()),
        serde_json::Value::Object(m) => JsonVal::Obj(
            m.into_iter().map(|(k, x)| (k, json_of_value(x))).collect(),
        ),
    }
}

/// Relies on serde_json::from_str: parsing a text is a function of the text
/// alone. Object entries arrive in serde_json's map order with duplicate
/// keys collapsed to the last one.
#[verifier::external_body]
fn parse_json_text(s: &str) -> (r: Option<JsonVal>)
    ensures
        r == json_doc_of(s@),
{
    match serde_json::from_str::<serde_json::Value>(s) {
        Ok(v) => Some(json_of_value(v)),
        Err(_) => None,
    }
}

/// The last value an object's entry list binds to `key`.
pub open spec fn spec_field(fields: Seq<(String, JsonVal)>, key: Seq<char>) -> Option<JsonVal>
    decreases fields.len(),
{
    if fields.len() == 0 {
        None
    } else if fields.last().0@ == key {
        Some(fields.last().1)
    } else {
        spec_field(fields.drop_last(), key)
    }
}

/// The pin entries a section object describes: every field must bind an
/// integer that fits i32, else the whole section is refused.
pub open spec fn spec_section_pins(fields: Seq<(String, JsonVal)>) -> Option<Seq<PinEntry>>
    decreases fields.len(),
{
    if fields.len() == 0 {
        Some(Seq::empty())
    } else {
        match spec_section_pins(fields.drop_last()) {
            None => None,
            Some(pins) => match fields.last().1 {
                JsonVal::Int(i) => if i32::MIN <= i && i <= i32::MAX {
                    Some(pins.push(PinEntry { name: fields.last().0, index: i as i32 }))
                } else {
                    None
                },
                _ => None,
            },
        }
    }
}

/// The two pin tables a parsed document describes: the document must be an
/// object whose `input` and `output` fields are objects of integer bit
/// indices. Anything else is refused.
pub open spec fn spec_mapping_of_doc(doc: JsonVal) -> Option<(Seq<PinEntry>, Seq<PinEntry>)> {
    match doc {
        JsonVal::Obj(fields) => match (spec_field(fields@, "input"@), spec_field(
            fields@,
            "output"@,
        )) {
            (Some(JsonVal::Obj(fin)), Some(JsonVal::Obj(fout))) => match (spec_section_pins(fin@),
                spec_section_pins(fout@)) {
                (Some(a), Some(b)) => Some((a, b)),
                _ => None,
            },
            _ => None,
        },
        _ => None,
    }
}

/// Finds the last field of an object bound to `key`.
fn find_field<'a>(fields: &'a Vec<(String, JsonVal)>, key: &String) -> (r: Option<&'a JsonVal>)
    ensures
        match spec_field(fields@, key@) {
            Some(v) => r is Some && *r->Some_0 == v,
            None => r is None,
        },
{
    let mut i: usize = fields.len();
    assert(fields@.take(i as int) =~= fields@);
    while i > 0
        invariant
            i <= fields@.len(),
            spec_field(fields@, key@) == spec_field(fields@.take(i as int), key@),
        decreases i,
    {
        i = i - 1;
        assert(fields@.take(i as int + 1).drop_last() =~= fields@.take(i as int));
        assert(fields@.take(i as int + 1).last() == fields@[i as int]);
        if fields[i].0 == *key {
            return Some(&fields[i].1);
        }
    }
    assert(fields@.take(0).len() == 0);
    None
}

proof fn lemma_section_pins_none(fields: Seq<(String, JsonVal)>, i: int)
    requires
        0 <= i <= fields.len(),
        spec_section_pins(fields.take(i)) is None,
    ensures
        spec_section_pins(fields) is None,
    decreases fields.len() - i,
{
    if i == fields.len() {
        assert(fields.take(i) =~= fields);
    } else {
        assert(fields.take(i + 1).drop_last() =~= fields.take(i));
        lemma_section_pins_none(fields, i + 1);
    }
}

/// Reads one section object into pin entries; an entry whose value is not
/// an integer fitting i32 refuses the section.
fn section_pins(fields: &Vec<(String, JsonVal)>) -> (r: Option<Vec<PinEntry>>)
    ensures
        match spec_section_pins(fields@) {
            Some(pins) => r is Some && r->Some_0@ == pins,
            None => r is None,
        },
{
    let mut out: Vec<PinEntry> = Vec::new();
    let n = fields.len();
    let mut i: usize = 0;
    assert(fields@.take(0) =~= Seq::<(String, JsonVal)>::empty());
    while i < n
        invariant
            n == fields@.len(),
            i <= n,
            spec_section_pins(fields@.take(i as int)) == Some(out@),
        decreases n - i,
    {
        assert(fields@.take(i as int + 1).drop_last() =~= fields@.take(i as int));
        assert(fields@.take(i as int + 1).last() == fields@[i as int]);
        let entry = &fields[i];
        match &entry.1 {
            JsonVal::Int(v) => {
                let v = *v;
                if v < (i32::MIN as i64) || v > (i32::MAX as i64) {
                    proof {
                        lemma_section_pins_none(fields@, i as int + 1);
                    }
                    return None;
                }
                out.push(PinEntry { name: entry.0.clone(), index: v as i32 });
            },
            _ => {
                proof {
                    lemma_section_pins_none(fields@, i as int + 1);
                }
                return None;
            },
        }
        i = i + 1;
    }
    assert(fields@.take(n as int) =~= fields@);
    Some(out)
}

/// Reads the two pin tables out of a parsed document. The document must be
/// an object with `input` and `output` fields, each an object binding pin
/// names to integer bit indices; anything else is a `FormatError`.
pub fn mapping_of_doc(doc: &JsonVal) -> (r: Result<PortMappings, FdeError>)
    ensures
        match spec_mapping_of_doc(*doc) {
            Some(tables) => r is Ok && r->Ok_0.input@ == tables.0 && r->Ok_0.output@ == tables.1,
            None => r == Err::<PortMappings, FdeError>(FdeError::FormatError),
        },
{
    match doc {
        JsonVal::Obj(fields) => {
            let input_key = "input".to_owned();
            let output_key = "output".to_owned();
            let in_field = find_field(fields, &input_key);
            let out_field = find_field(fields, &output_key);
            match (in_field, out_field) {
                (Some(JsonVal::Obj(fin)), Some(JsonVal::Obj(fout))) => {
                    match (section_pins(fin), section_pins(fout)) {
                        (Some(input), Some(output)) => Ok(PortMappings { input, output }),
                        _ => Err(FdeError::FormatError),
                    }
                },
                _ => Err(FdeError::FormatError),
            }
        },
        _ => Err(FdeError::FormatError),
    }
}

/// Parses the pin-mapping document from its JSON text: on success the two
/// tables hold exactly the sections' entries; a text that is not valid
/// JSON, or whose shape is not the two-section structure, is a
/// `FormatError`.
pub fn parse_ports(json_str: &str) -> (r: Result<PortMappings, FdeError>)
    ensures
        match json_doc_of(json_str@) {
            None => r == Err::<PortMappings, FdeError>(FdeError::FormatError),
            Some(doc) => match spec_mapping_of_doc(doc) {
                Some(tables) => r is Ok && r->Ok_0.input@ == tables.0 && r->Ok_0.output@
                    == tables.1,
                None => r == Err::<PortMappings, FdeError>(FdeError::FormatError),
            },
        },
{
    match parse_json_text(json_str) {
        None => Err(FdeError::FormatError),
        Some(doc) => mapping_of_doc(&doc),
    }
}

} // verus!
