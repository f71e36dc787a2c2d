use vstd::prelude::*;

use crate::errors::FdeError;
use crate::ports::ConstraintPort;

verus! {

/// One item a scan of a markup document yields: a start element with its
/// local name and attribute pairs, or anything else.
#[derive(Debug)]
pub enum XmlItem {
    Element { name: String, attrs: Vec<(String, String)> },
    Other,
}

/// What a scan of a document's bytes yields: the items in document order,
/// and whether a parse error cut the scan short.
#[derive(Debug)]
pub struct XmlScan {
    pub items: Vec<XmlItem>,
    pub truncated: bool,
}

/// What xml's pull parser yields on given bytes, reduced to `XmlItem`s up
/// to the first parse error; the scan depends on the bytes alone.
pub uninterp spec fn xml_scan_of(data: Seq<u8>) -> XmlScan;

/// Relies on xml::reader::EventReader: every event is carried over, one
/// arm per kind — start elements keep their local name and attribute
/// pairs — and the first parse error ends the scan with `truncated` set.
#[verifier::external_body]
fn scan_xml_bytes(data: &[u8]) -> (r: XmlScan)
    ensures
        r == xml_scan_of(data@),
{
    let mut items: Vec<XmlItem> = Vec::new();
    for event in xml::reader::EventReader::new(data) {
        match event {
            Ok(xml::reader::XmlEvent::StartElement { name, attributes, .. }) => items.push(
                XmlItem::Element {
                    name: name.local_name,
                    attrs: attributes.into_iter().map(|a| (a.name.local_name, a.value)).collect(),
                },
            ),
            Ok(_) => items.push(XmlItem::Other),
            Err(_) => return XmlScan { items, truncated: true },
        }
    }
    XmlScan { items, truncated: false }
}

/// The last value an attribute list binds to `key`.
pub open spec fn spec_attr(attrs: Seq<(String, String)>, key: Seq<char>) -> Option<String>
    decreases attrs.len(),
{
    if attrs.len() == 0 {
        None
    } else if attrs.last().0@ == key {
        Some(attrs.last().1)
    } else {
        spec_attr(attrs.drop_last(), key)
    }
}

/// The constraint one scanned item yields: a start element that carries
/// both a `name` and a `position` attribute binds that logical name to
/// that physical pin.
pub open spec fn spec_item_constraint(item: XmlItem) -> Option<ConstraintPort> {
    match item {
        XmlItem::Element { name: _, attrs } => match (spec_attr(attrs@, "name"@), spec_attr(
            attrs@,
            "position"@,
        )) {
            (Some(n), Some(p)) => Some(ConstraintPort { name: n, port_name: p }),
            _ => None,
        },
        XmlItem::Other => None,
    }
}

/// All constraints the scanned items carry, in document order.
pub open spec fn spec_constraints(items: Seq<XmlItem>) -> Seq<ConstraintPort>
    decreases items.len(),
{
    if items.len() == 0 {
        Seq::empty()
    } else {
        let rest = spec_constraints(items.drop_last());
        match spec_item_constraint(items.last()) {
            Some(c) => rest.push(c),
            None => rest,
        }
    }
}

/// Finds the last attribute bound to `key`.
fn find_attr<'a>(attrs: &'a Vec<(String, String)>, key: &String) -> (r: Option<&'a String>)
    ensures
        match spec_attr(attrs@, key@) {
            Some(v) => r is Some && *r->Some_0 == v,
            None => r is None,
        },
{
    let mut i: usize = attrs.len();
    assert(attrs@.take(i as int) =~= attrs@);
    while i > 0
        invariant
            i <= attrs@.len(),
            spec_attr(attrs@, key@) == spec_attr(attrs@.take(i as int), key@),
        decreases i,
    {
        i = i - 1;
        assert(attrs@.take(i as int + 1).drop_last() =~= attrs@.take(i as int));
        assert(attrs@.take(i as int + 1).last() == attrs@[i as int]);
        if attrs[i].0 == *key {
            return Some(&attrs[i].1);
        }
    }
    assert(attrs@.take(0).len() == 0);
    None
}

/// The constraints carried by scanned items: every start element with
/// both a `name` and a `position` attribute yields one, in document
/// order.
pub fn constraints_from_items(items: &Vec<XmlItem>) -> (r: Vec<ConstraintPort>)
    ensures
        r@ == spec_constraints(items@),
{
    let name_key = "name".to_owned();
    let position_key = "position".to_owned();
    let mut out: Vec<ConstraintPort> = Vec::new();
    let n = items.len();
    let mut i: usize = 0;
    assert(items@.take(0) =~= Seq::<XmlItem>::empty());
    while i < n
        invariant
            n == items@.len(),
            i <= n,
            name_key@ == "name"@,
            position_key@ == "position"@,
            out@ == spec_constraints(items@.take(i as int)),
        decreases n - i,
    {
        proof {
            assert(items@.take(i as int + 1).drop_last() =~= items@.take(i as int));
            assert(items@.take(i as int + 1).last() == items@[i as int]);
        }
        match &items[i] {
            XmlItem::Element { name: _, attrs } => {
                let name_val = find_attr(attrs, &name_key);
                let position_val = find_attr(attrs, &position_key);
                match (name_val, position_val) {
                    (Some(n_val), Some(p_val)) => {
                        out.push(
                            ConstraintPort { name: n_val.clone(), port_name: p_val.clone() },
                        );
                    },
                    _ => {},
                }
            },
            XmlItem::Other => {},
        }
        i = i + 1;
    }
    assert(items@.take(n as int) =~= items@);
    out
}

/// Reads a constraint document and keeps the bindings it declares.
pub struct ConstraintsReader {
    constraintsfile: String,
    ports: Vec<ConstraintPort>,
}

impl ConstraintsReader {
    pub closed spec fn spec_constraintsfile(&self) -> Seq<char> {
        self.constraintsfile@
    }

    pub closed spec fn spec_ports(&self) -> Seq<ConstraintPort> {
        self.ports@
    }

    pub fn new(constraintsfile: String) -> (r: Self)
        ensures
            r.spec_constraintsfile() == constraintsfile@,
            r.spec_ports() == Seq::<ConstraintPort>::empty(),
    {
        ConstraintsReader { constraintsfile, ports: Vec::new() }
    }

    /// Scans the document's bytes. Every element carrying both a `name`
    /// and a `position` attribute becomes one binding, in document order.
    /// A parse error keeps the bindings collected before it and surfaces
    /// as `FormatError`; the document's tail past the error is lost.
    pub fn read(&mut self, data: &[u8]) -> (r: Result<(), FdeError>)
        ensures
            final(self).spec_ports() == spec_constraints(xml_scan_of(data@).items@),
            final(self).spec_constraintsfile() == old(self).spec_constraintsfile(),
            xml_scan_of(data@).truncated ==> r == Err::<(), FdeError>(FdeError::FormatError),
            !xml_scan_of(data@).truncated ==> r is Ok,
    {
        let scan = scan_xml_bytes(data);
        self.ports = constraints_from_items(&scan.items);
        if scan.truncated {
            Err(FdeError::FormatError)
        } else {
            Ok(())
        }
    }

    /// The bindings read so far.
    pub fn get_ports(&self) -> (r: &Vec<ConstraintPort>)
        ensures
            r@ == self.spec_ports(),
    {
        &self.ports
    }
}

} // verus!
