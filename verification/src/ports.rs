use vstd::prelude::*;

pub mod parse;
pub mod table;

use crate::errors::FdeError;
use crate::ports::parse::{PinEntry, PortMappings, spec_lookup, lookup_pin};

verus! {

/// A binding read from the constraint file: a logical signal name and the
/// physical pin name it is placed on.
#[derive(Debug)]
pub struct ConstraintPort {
    pub name: String,
    pub port_name: String,
}

impl Clone for ConstraintPort {
    fn clone(&self) -> (r: Self)
        ensures
            r == *self,
    {
        ConstraintPort { name: self.name.clone(), port_name: self.port_name.clone() }
    }
}

/// The direction of a grouped signal: input, output, or don't care.
#[derive(Clone, Copy, Debug, PartialEq, Eq, Structural)]
pub enum IOType {
    INPUT,
    OUTPUT,
    DC,
}

impl IOType {
    /// The direction's name, for rendering.
    pub fn as_str(&self) -> (r: &'static str)
        ensures
            *self == IOType::DC ==> r@ == "DC"@,
            *self == IOType::INPUT ==> r@ == "INPUT"@,
            *self == IOType::OUTPUT ==> r@ == "OUTPUT"@,
    {
        match *self {
            IOType::DC => "DC",
            IOType::INPUT => "INPUT",
            IOType::OUTPUT => "OUTPUT",
        }
    }
}

/// One bit of a logical signal: its logical name, the physical pin it is
/// bound to, the resolved bit index (`-1` when the pin is unmapped), and the
/// bit's current value.
#[derive(Debug)]
pub struct Port {
    pub name: String,
    pub pin_name: String,
    pub pin_index: i64,
    pub value: bool,
}

impl Clone for Port {
    fn clone(&self) -> (r: Self)
        ensures
            r == *self,
    {
        Port {
            name: self.name.clone(),
            pin_name: self.pin_name.clone(),
            pin_index: self.pin_index,
            value: self.value,
        }
    }
}

/// The bit index a physical pin name resolves to: the index bound in the
/// `input` table, or one less than the index bound in the `output` table
/// (the vendor's output numbering is off by one), or `-1` when the name is
/// bound in neither.
pub open spec fn spec_resolve_index(
    input: Seq<PinEntry>,
    output: Seq<PinEntry>,
    pin_name: Seq<char>,
) -> i64 {
    match spec_lookup(input, pin_name) {
        Some(i) => i as i64,
        None => match spec_lookup(output, pin_name) {
            Some(i) => ((i - 1) as i64),
            None => -1i64,
        },
    }
}

/// Builds the Port for one constraint: the pin name is resolved against the
/// input table first, then the output table; an unmapped name gets the `-1`
/// sentinel. The bit's value starts out false.
pub fn new_port(constraint_p: ConstraintPort, port_mapping: PortMappings) -> (r: Port)
    ensures
        r.name == constraint_p.name,
        r.pin_name == constraint_p.port_name,
        r.pin_index == spec_resolve_index(
            port_mapping.input@,
            port_mapping.output@,
            constraint_p.port_name@,
        ),
        r.value == false,
{
    let pin_index: i64 = match lookup_pin(&port_mapping.input, &constraint_p.port_name) {
        Some(index) => index as i64,
        None => match lookup_pin(&port_mapping.output, &constraint_p.port_name) {
            Some(index) => (index as i64) - 1,
            None => -1,
        },
    };

    Port {
        name: constraint_p.name,
        pin_name: constraint_p.port_name,
        pin_index,
        value: false,
    }
}

/// Whether bit `i` of `w` is set; bit positions are 0-based from the LSB.
pub open spec fn bit64(w: u64, i: u64) -> bool {
    (w >> i) & 1 == 1
}

/// A Port whose pin resolved; only these contribute bits.
pub open spec fn resolved(p: Port) -> bool {
    p.pin_index != -1
}

pub open spec fn bool_bit(b: bool) -> u64 {
    if b {
        1u64
    } else {
        0u64
    }
}

/// Every resolved bit index fits the 64-bit hardware word.
pub open spec fn abs_in_range(ports: Seq<Port>) -> bool {
    forall|i: int|
        0 <= i < ports.len() ==> ((#[trigger] ports[i]).pin_index != -1 ==> 0 <= ports[i].pin_index
            < 64)
}

/// Every resolved bit index, and its offset from `base`, fits the word.
pub open spec fn rel_in_range(ports: Seq<Port>, base: i64) -> bool {
    forall|i: int|
        0 <= i < ports.len() ==> ((#[trigger] ports[i]).pin_index != -1 ==> (0 <= ports[i].pin_index
            < 64 && 0 <= ports[i].pin_index - base < 64))
}

/// The write word of a list of Ports: each resolved bit placed at its
/// absolute index, zero elsewhere.
pub open spec fn abs_word(ports: Seq<Port>) -> u64
    decreases ports.len(),
{
    if ports.len() == 0 {
        0u64
    } else {
        let p = ports.last();
        let rest = abs_word(ports.drop_last());
        if resolved(p) {
            rest | (bool_bit(p.value) << (p.pin_index as u64))
        } else {
            rest
        }
    }
}

/// The aggregate data value of a list of Ports: each resolved bit placed at
/// its index relative to `base`, zero elsewhere.
pub open spec fn rel_word(ports: Seq<Port>, base: i64) -> u64
    decreases ports.len(),
{
    if ports.len() == 0 {
        0u64
    } else {
        let p = ports.last();
        let rest = rel_word(ports.drop_last(), base);
        if resolved(p) {
            rest | (bool_bit(p.value) << ((p.pin_index - base) as u64))
        } else {
            rest
        }
    }
}

/// The Ports after a read cycle: each resolved Port's value becomes the bit
/// of `w` at the Port's absolute index; unresolved Ports are untouched.
pub open spec fn unpack_ports(ports: Seq<Port>, w: u64) -> Seq<Port> {
    ports.map_values(
        |p: Port|
            if resolved(p) {
                Port { value: bit64(w, p.pin_index as u64), ..p }
            } else {
                p
            },
    )
}

/// The Ports after a write is prepared: each resolved Port's value becomes
/// the bit of `w` at the Port's index relative to `base`.
pub open spec fn pack_ports(ports: Seq<Port>, base: i64, w: u64) -> Seq<Port> {
    ports.map_values(
        |p: Port|
            if resolved(p) {
                Port { value: bit64(w, (p.pin_index - base) as u64), ..p }
            } else {
                p
            },
    )
}

/// A grouped logical signal: a direction, a base name, the constituent
/// Ports in constraint-file order, and the aggregate data value.
#[derive(Debug)]
pub struct IOPort {
    pub io_type: IOType,
    pub io_name: String,
    pub ports: Vec<Port>,
    pub data: u64,
}

impl Clone for IOPort {
    fn clone(&self) -> (r: Self)
        ensures
            r.io_type == self.io_type,
            r.io_name == self.io_name,
            r.ports@ == self.ports@,
            r.data == self.data,
    {
        let mut ports: Vec<Port> = Vec::new();
        let n = self.ports.len();
        let mut i: usize = 0;
        while i < n
            invariant
                n == self.ports@.len(),
                i <= n,
                ports@ =~= self.ports@.take(i as int),
            decreases n - i,
        {
            ports.push(self.ports[i].clone());
            assert(ports@ =~= self.ports@.take(i as int + 1));
            i = i + 1;
        }
        assert(self.ports@.take(n as int) =~= self.ports@);
        IOPort {
            io_type: self.io_type,
            io_name: self.io_name.clone(),
            ports,
            data: self.data,
        }
    }
}

/// Checks that every resolved Port's index and base-relative offset fit the
/// 64-bit word; `base` must be the first Port's index.
fn check_rel_range(ports: &Vec<Port>, base: i64) -> (r: bool)
    requires
        ports@.len() > 0,
        base == ports@[0].pin_index,
    ensures
        r == rel_in_range(ports@, base),
{
    let n = ports.len();
    let mut i: usize = 0;
    while i < n
        invariant
            n == ports@.len(),
            i <= n,
            n > 0,
            base == ports@[0].pin_index,
            forall|k: int|
                0 <= k < i ==> ((#[trigger] ports@[k]).pin_index != -1 ==> (0 <= ports@[k].pin_index
                    < 64 && 0 <= ports@[k].pin_index - base < 64)),
        decreases n - i,
    {
        let idx = ports[i].pin_index;
        if idx != -1 {
            if idx < 0 || idx >= 64 {
                assert(!rel_in_range(ports@, base)) by {
                    assert((ports@[i as int]).pin_index != -1);
                }
                return false;
            }
            // the first Port was vetted already (or is this very Port), so
            // base is -1 or lies in [0, 64) and the subtraction cannot overflow
            assert(base == -1 || 0 <= base < 64) by {
                assert((ports@[0]).pin_index != -1 ==> 0 <= ports@[0].pin_index < 64);
            }
            let rel = idx - base;
            if rel < 0 || rel >= 64 {
                assert(!rel_in_range(ports@, base)) by {
                    assert((ports@[i as int]).pin_index != -1);
                }
                return false;
            }
        }
        i = i + 1;
    }
    true
}

/// Checks that every resolved Port's absolute index fits the 64-bit word.
fn check_abs_range(ports: &Vec<Port>) -> (r: bool)
    ensures
        r == abs_in_range(ports@),
{
    let n = ports.len();
    let mut i: usize = 0;
    while i < n
        invariant
            n == ports@.len(),
            i <= n,
            forall|k: int|
                0 <= k < i ==> ((#[trigger] ports@[k]).pin_index != -1 ==> 0 <= ports@[k].pin_index
                    < 64),
        decreases n - i,
    {
        let idx = ports[i].pin_index;
        if idx != -1 && (idx < 0 || idx >= 64) {
            assert(!abs_in_range(ports@)) by {
                assert((ports@[i as int]).pin_index != -1);
            }
            return false;
        }
        i = i + 1;
    }
    true
}

impl IOPort {
    pub fn new(io_type: IOType, io_name: String, ports: Vec<Port>) -> (r: Self)
        ensures
            r.io_type == io_type,
            r.io_name == io_name,
            r.ports == ports,
            r.data == 0u64,
    {
        Self { io_type, io_name, ports, data: 0u64 }
    }

    /// The aggregate unsigned value the constituent bits currently hold.
    pub fn get_value(&self) -> (r: u64)
        ensures
            r == self.data,
    {
        self.data
    }

    /// Updates every resolved Port's value from the bit of `bitstream` at
    /// the Port's absolute index, and recomputes the aggregate data value
    /// from the base-relative positions. A resolved index outside the word,
    /// or outside it after the base offset, is rejected with `RangeError`
    /// and nothing changes.
    pub fn update(&mut self, bitstream: u64) -> (r: Result<(), FdeError>)
        requires
            old(self).ports@.len() > 0,
        ensures
            rel_in_range(old(self).ports@, old(self).ports@[0].pin_index) ==> ({
                &&& r == Ok::<(), FdeError>(())
                &&& final(self).ports@ == unpack_ports(old(self).ports@, bitstream)
                &&& final(self).data == rel_word(
                    unpack_ports(old(self).ports@, bitstream),
                    old(self).ports@[0].pin_index,
                )
                &&& final(self).io_type == old(self).io_type
                &&& final(self).io_name == old(self).io_name
            }),
            !rel_in_range(old(self).ports@, old(self).ports@[0].pin_index) ==> (r == Err::<
                (),
                FdeError,
            >(FdeError::RangeError) && *final(self) == *old(self)),
    {
        let base = self.ports[0].pin_index;
        if !check_rel_range(&self.ports, base) {
            return Err(FdeError::RangeError);
        }
        let ghost old_ports = self.ports@;
        let n = self.ports.len();
        let mut new_ports: Vec<Port> = Vec::new();
        let mut data: u64 = 0;
        let mut i: usize = 0;
        while i < n
            invariant
                n == old_ports.len(),
                self.ports@ == old_ports,
                rel_in_range(old_ports, base),
                base == old_ports[0].pin_index,
                i <= n,
                new_ports@ == unpack_ports(old_ports, bitstream).take(i as int),
                data == rel_word(new_ports@, base),
            decreases n - i,
        {
            let ghost prev = new_ports@;
            let mut np = self.ports[i].clone();
            if np.pin_index != -1 {
                let idx = np.pin_index;
                let sh: u64 = idx as u64;
                let bit = (bitstream >> sh) & 1;
                assert((bitstream >> sh) & 1 == 0 || (bitstream >> sh) & 1 == 1) by (bit_vector);
                np.value = bit != 0;
                let rel = idx - base;
                data = data | ((if np.value {
                    1u64
                } else {
                    0u64
                }) << (rel as u64));
            }
            new_ports.push(np);
            proof {
                let f = |p: Port|
                    if resolved(p) {
                        Port { value: bit64(bitstream, p.pin_index as u64), ..p }
                    } else {
                        p
                    };
                assert(np == f(old_ports[i as int]));
                assert(unpack_ports(old_ports, bitstream)[i as int] == f(old_ports[i as int]));
                assert(new_ports@ =~= unpack_ports(old_ports, bitstream).take(i as int + 1));
                assert(prev.push(np).drop_last() =~= prev);
            }
            i = i + 1;
        }
        assert(unpack_ports(old_ports, bitstream).take(n as int) =~= unpack_ports(
            old_ports,
            bitstream,
        ));
        self.ports = new_ports;
        self.data = data;
        Ok(())
    }

    /// Sets every resolved Port's value from the bit of `new_data` at the
    /// Port's base-relative index, and recomputes the aggregate data value.
    /// Out-of-range indices are rejected with `RangeError` as in `update`.
    pub fn change_value(&mut self, new_data: u64) -> (r: Result<(), FdeError>)
        requires
            old(self).ports@.len() > 0,
        ensures
            rel_in_range(old(self).ports@, old(self).ports@[0].pin_index) ==> ({
                &&& r == Ok::<(), FdeError>(())
                &&& final(self).ports@ == pack_ports(
                    old(self).ports@,
                    old(self).ports@[0].pin_index,
                    new_data,
                )
                &&& final(self).data == rel_word(
                    pack_ports(old(self).ports@, old(self).ports@[0].pin_index, new_data),
                    old(self).ports@[0].pin_index,
                )
                &&& final(self).io_type == old(self).io_type
                &&& final(self).io_name == old(self).io_name
            }),
            !rel_in_range(old(self).ports@, old(self).ports@[0].pin_index) ==> (r == Err::<
                (),
                FdeError,
            >(FdeError::RangeError) && *final(self) == *old(self)),
    {
        let base = self.ports[0].pin_index;
        if !check_rel_range(&self.ports, base) {
            return Err(FdeError::RangeError);
        }
        let ghost old_ports = self.ports@;
        let n = self.ports.len();
        let mut new_ports: Vec<Port> = Vec::new();
        let mut data: u64 = 0;
        let mut i: usize = 0;
        while i < n
            invariant
                n == old_ports.len(),
                self.ports@ == old_ports,
                rel_in_range(old_ports, base),
                base == old_ports[0].pin_index,
                i <= n,
                new_ports@ == pack_ports(old_ports, base, new_data).take(i as int),
                data == rel_word(new_ports@, base),
            decreases n - i,
        {
            let ghost prev = new_ports@;
            let mut np = self.ports[i].clone();
            if np.pin_index != -1 {
                let idx = np.pin_index;
                let rel = idx - base;
                let sh: u64 = rel as u64;
                let bit = (new_data >> sh) & 1;
                assert((new_data >> sh) & 1 == 0 || (new_data >> sh) & 1 == 1) by (bit_vector);
                np.value = bit != 0;
                data = data | ((if np.value {
                    1u64
                } else {
                    0u64
                }) << (rel as u64));
            }
            new_ports.push(np);
            proof {
                let f = |p: Port|
                    if resolved(p) {
                        Port { value: bit64(new_data, (p.pin_index - base) as u64), ..p }
                    } else {
                        p
                    };
                assert(np == f(old_ports[i as int]));
                assert(pack_ports(old_ports, base, new_data)[i as int] == f(old_ports[i as int]));
                assert(new_ports@ =~= pack_ports(old_ports, base, new_data).take(i as int + 1));
                assert(prev.push(np).drop_last() =~= prev);
            }
            i = i + 1;
        }
        assert(pack_ports(old_ports, base, new_data).take(n as int) =~= pack_ports(
            old_ports,
            base,
            new_data,
        ));
        self.ports = new_ports;
        self.data = data;
        Ok(())
    }

    /// The word to send to hardware: every resolved Port's current value
    /// placed at its absolute bit index, zero elsewhere. A resolved index
    /// outside the 64-bit word is rejected with `RangeError`.
    pub fn get_write(&self) -> (r: Result<u64, FdeError>)
        ensures
            abs_in_range(self.ports@) ==> r == Ok::<u64, FdeError>(abs_word(self.ports@)),
            !abs_in_range(self.ports@) ==> r == Err::<u64, FdeError>(FdeError::RangeError),
    {
        if !check_abs_range(&self.ports) {
            return Err(FdeError::RangeError);
        }
        let n = self.ports.len();
        let mut temp: u64 = 0;
        let mut i: usize = 0;
        while i < n
            invariant
                n == self.ports@.len(),
                abs_in_range(self.ports@),
                i <= n,
                temp == abs_word(self.ports@.take(i as int)),
            decreases n - i,
        {
            let ghost prev = self.ports@.take(i as int);
            let idx = self.ports[i].pin_index;
            if idx != -1 {
                temp = temp | ((if self.ports[i].value {
                    1u64
                } else {
                    0u64
                }) << (idx as u64));
            }
            proof {
                assert(self.ports@.take(i as int + 1) =~= prev.push(self.ports@[i as int]));
                assert(prev.push(self.ports@[i as int]).drop_last() =~= prev);
            }
            i = i + 1;
        }
        assert(self.ports@.take(n as int) =~= self.ports@);
        Ok(temp)
    }
}

proof fn lemma_bit64_zero(q: u64)
    requires
        q < 64,
    ensures
        !bit64(0u64, q),
{
    assert((0u64 >> q) & 1 != 1) by (bit_vector);
}

proof fn lemma_bit64_or_shift(acc: u64, v: u64, p: u64, q: u64)
    requires
        p < 64,
        q < 64,
        v == 0 || v == 1,
    ensures
        bit64(acc | (v << p), q) == (bit64(acc, q) || (p == q && v == 1)),
{
    assert((((acc | (v << p)) >> q) & 1 == 1) == (((acc >> q) & 1 == 1) || (p == q && v == 1)))
        by (bit_vector)
        requires
            p < 64,
            q < 64,
            v == 0 || v == 1,
    ;
}

/// Bit `q` of the write word is set exactly when some resolved Port with
/// absolute index `q` currently holds a true value.
proof fn lemma_abs_word_bit(ports: Seq<Port>, q: u64)
    requires
        abs_in_range(ports),
        q < 64,
    ensures
        bit64(abs_word(ports), q) == exists|i: int|
            0 <= i < ports.len() && (#[trigger] ports[i]).pin_index == q && ports[i].value,
    decreases ports.len(),
{
    if ports.len() == 0 {
        lemma_bit64_zero(q);
    } else {
        let s = ports.drop_last();
        let p = ports.last();
        let last = ports.len() - 1;
        assert(forall|i: int| 0 <= i < s.len() ==> s[i] == ports[i]);
        lemma_abs_word_bit(s, q);
        if p.pin_index != -1 {
            assert(0 <= p.pin_index < 64) by {
                assert((ports[last]).pin_index != -1);
            }
            lemma_bit64_or_shift(abs_word(s), bool_bit(p.value), p.pin_index as u64, q);
            if bit64(abs_word(ports), q) {
                if bit64(abs_word(s), q) {
                    let i = choose|i: int|
                        0 <= i < s.len() && (#[trigger] s[i]).pin_index == q && s[i].value;
                    assert((ports[i]).pin_index == q && ports[i].value);
                } else {
                    assert((ports[last]).pin_index == q && ports[last].value);
                }
            }
            if exists|i: int|
                0 <= i < ports.len() && (#[trigger] ports[i]).pin_index == q && ports[i].value {
                let i = choose|i: int|
                    0 <= i < ports.len() && (#[trigger] ports[i]).pin_index == q && ports[i].value;
                if i == last {
                    assert(p.pin_index as u64 == q && bool_bit(p.value) == 1);
                } else {
                    assert((s[i]).pin_index == q && s[i].value);
                }
                assert(bit64(abs_word(ports), q));
            }
        } else {
            assert(abs_word(ports) == abs_word(s));
            if exists|i: int|
                0 <= i < ports.len() && (#[trigger] ports[i]).pin_index == q && ports[i].value {
                let i = choose|i: int|
                    0 <= i < ports.len() && (#[trigger] ports[i]).pin_index == q && ports[i].value;
                assert(i != last);
                assert((s[i]).pin_index == q && s[i].value);
            }
            if exists|i: int| 0 <= i < s.len() && (#[trigger] s[i]).pin_index == q && s[i].value {
                let i = choose|i: int|
                    0 <= i < s.len() && (#[trigger] s[i]).pin_index == q && s[i].value;
                assert((ports[i]).pin_index == q && ports[i].value);
            }
        }
    }
}

/// Round trip. After a read cycle fills a Port list from a hardware word,
/// the write word built from that state reads back to exactly the same
/// state: every resolved Port reproduces its value, and unresolved Ports
/// are untouched throughout.
pub proof fn lemma_round_trip(ports: Seq<Port>, w: u64)
    requires
        abs_in_range(ports),
        exists|i: int| 0 <= i < ports.len() && (#[trigger] ports[i]).pin_index != -1,
    ensures
        unpack_ports(unpack_ports(ports, w), abs_word(unpack_ports(ports, w))) == unpack_ports(
            ports,
            w,
        ),
{
    let u1 = unpack_ports(ports, w);
    let w2 = abs_word(u1);
    assert(u1.len() == ports.len());
    assert(forall|j: int|
        0 <= j < ports.len() ==> (#[trigger] u1[j]).pin_index == ports[j].pin_index);
    assert(forall|j: int|
        0 <= j < ports.len() && ports[j].pin_index != -1 ==> (#[trigger] u1[j]).value == bit64(
            w,
            ports[j].pin_index as u64,
        ));
    assert(abs_in_range(u1));
    assert forall|j: int| 0 <= j < u1.len() && (#[trigger] u1[j]).pin_index != -1 implies bit64(
        w2,
        u1[j].pin_index as u64,
    ) == u1[j].value by {
        let q = u1[j].pin_index as u64;
        assert(0 <= u1[j].pin_index < 64);
        lemma_abs_word_bit(u1, q);
        if u1[j].value {
            assert((u1[j]).pin_index == q && u1[j].value);
            assert(bit64(w2, q));
        } else {
            if exists|i: int| 0 <= i < u1.len() && (#[trigger] u1[i]).pin_index == q && u1[i].value {
                let i = choose|i: int|
                    0 <= i < u1.len() && (#[trigger] u1[i]).pin_index == q && u1[i].value;
                assert(ports[i].pin_index == ports[j].pin_index);
                assert(u1[i].value == bit64(w, ports[i].pin_index as u64));
                assert(u1[j].value == bit64(w, ports[j].pin_index as u64));
                assert(false);
            }
            assert(!bit64(w2, q));
        }
    }
    assert(unpack_ports(u1, w2) =~= u1);
}

/// Round trip through the write-preparation path. When the group's base
/// index is 0 the relative and absolute bit positions coincide, so packing
/// the write word built from a read cycle's state reproduces that state
/// exactly.
pub proof fn lemma_pack_round_trip(ports: Seq<Port>, w: u64)
    requires
        abs_in_range(ports),
        ports.len() > 0,
        ports[0].pin_index == 0,
        exists|i: int| 0 <= i < ports.len() && (#[trigger] ports[i]).pin_index != -1,
    ensures
        pack_ports(unpack_ports(ports, w), 0, abs_word(unpack_ports(ports, w))) == unpack_ports(
            ports,
            w,
        ),
{
    lemma_round_trip(ports, w);
    let u1 = unpack_ports(ports, w);
    let w2 = abs_word(u1);
    assert forall|j: int| 0 <= j < u1.len() implies #[trigger] pack_ports(u1, 0, w2)[j]
        == unpack_ports(u1, w2)[j] by {
        assert((u1[j].pin_index - 0) as u64 == u1[j].pin_index as u64);
    }
    assert(pack_ports(u1, 0, w2) =~= unpack_ports(u1, w2));
}

proof fn lemma_abs_word_remove(ports: Seq<Port>, i: int)
    requires
        0 <= i < ports.len(),
        ports[i].pin_index == -1,
    ensures
        abs_word(ports.remove(i)) == abs_word(ports),
    decreases ports.len(),
{
    if i == ports.len() - 1 {
        assert(ports.remove(i) =~= ports.drop_last());
    } else {
        let s = ports.drop_last();
        let p = ports.last();
        lemma_abs_word_remove(s, i);
        assert(ports.remove(i).drop_last() =~= s.remove(i));
        assert(ports.remove(i).last() == p);
    }
}

proof fn lemma_rel_word_remove(ports: Seq<Port>, i: int, base: i64)
    requires
        0 <= i < ports.len(),
        ports[i].pin_index == -1,
    ensures
        rel_word(ports.remove(i), base) == rel_word(ports, base),
    decreases ports.len(),
{
    if i == ports.len() - 1 {
        assert(ports.remove(i) =~= ports.drop_last());
    } else {
        let s = ports.drop_last();
        let p = ports.last();
        lemma_rel_word_remove(s, i, base);
        assert(ports.remove(i).drop_last() =~= s.remove(i));
        assert(ports.remove(i).last() == p);
    }
}

/// Unmapped signal skip. A Port whose pin did not resolve (index -1)
/// contributes nothing: removing it changes neither the write word nor the
/// aggregate data value, and neither a read cycle nor a write preparation
/// touches it.
pub proof fn lemma_unmapped_signal_skip(ports: Seq<Port>, i: int, base: i64, w: u64)
    requires
        0 <= i < ports.len(),
        ports[i].pin_index == -1,
    ensures
        abs_word(ports.remove(i)) == abs_word(ports),
        rel_word(ports.remove(i), base) == rel_word(ports, base),
        unpack_ports(ports, w)[i] == ports[i],
        pack_ports(ports, base, w)[i] == ports[i],
{
    lemma_abs_word_remove(ports, i);
    lemma_rel_word_remove(ports, i, base);
}

/// Composes one 64-bit register snapshot from 4 words: word 0 lands in bits
/// 48..64, word 3 in bits 0..16.
pub fn u16_4_to_u64(rx_buffer: &[u16]) -> (r: u64)
    requires
        rx_buffer@.len() == 4,
    ensures
        r == ((rx_buffer@[0] as u64) << 48) | ((rx_buffer@[1] as u64) << 32) | ((rx_buffer@[2]
            as u64) << 16) | (rx_buffer@[3] as u64),
{
    let mut result: u64 = (rx_buffer[0] as u64) << 48;
    result = result | ((rx_buffer[1] as u64) << 32);
    result = result | ((rx_buffer[2] as u64) << 16);
    result = result | (rx_buffer[3] as u64);
    result
}

/// Composes a read-response snapshot: response words arrive in the reverse
/// order, so the group of 4 is reversed before composing.
pub fn u16_4_to_u64_rev(rx_buffer: &[u16]) -> (r: u64)
    requires
        rx_buffer@.len() == 4,
    ensures
        r == ((rx_buffer@[3] as u64) << 48) | ((rx_buffer@[2] as u64) << 32) | ((rx_buffer@[1]
            as u64) << 16) | (rx_buffer@[0] as u64),
{
    let mut result: u64 = (rx_buffer[3] as u64) << 48;
    result = result | ((rx_buffer[2] as u64) << 32);
    result = result | ((rx_buffer[1] as u64) << 16);
    result = result | (rx_buffer[0] as u64);
    result
}

/// A word character of the array-name pattern: an ASCII letter, a digit,
/// or an underscore.
pub open spec fn is_word_char(c: char) -> bool {
    (97 <= c as u32 && c as u32 <= 122) || (65 <= c as u32 && c as u32 <= 90) || (48 <= c as u32
        && c as u32 <= 57) || c as u32 == 95
}

pub open spec fn is_digit_char(c: char) -> bool {
    48 <= c as u32 && c as u32 <= 57
}

/// `s` has the shape `<identifier>[<digits>]` with the `[` at position `i`:
/// a nonempty word-character prefix, a nonempty digit run, and a closing
/// bracket at the very end.
pub open spec fn array_split_at(s: Seq<char>, i: int) -> bool {
    &&& 1 <= i < s.len() - 2
    &&& s[i] == '['
    &&& s[s.len() - 1] == ']'
    &&& (forall|k: int| 0 <= k < i ==> is_word_char(#[trigger] s[k]))
    &&& (forall|k: int| i < k < s.len() - 1 ==> is_digit_char(#[trigger] s[k]))
}

/// Whether a logical name matches the array pattern `<identifier>[<n>]`.
pub open spec fn is_array_name(s: Seq<char>) -> bool {
    exists|i: int| array_split_at(s, i)
}

/// The base name of an array-pattern name: everything before the bracket.
pub open spec fn array_base_of(s: Seq<char>) -> Seq<char> {
    s.subrange(0, choose|i: int| array_split_at(s, i))
}

proof fn lemma_array_split_unique(s: Seq<char>, i: int, j: int)
    requires
        array_split_at(s, i),
        array_split_at(s, j),
    ensures
        i == j,
{
    if i < j {
        assert(is_word_char(s[i]));
        assert(s[i] == '[');
        assert(false);
    }
    if j < i {
        assert(is_word_char(s[j]));
        assert(s[j] == '[');
        assert(false);
    }
}

fn word_char(c: char) -> (r: bool)
    ensures
        r == is_word_char(c),
{
    let u = c as u32;
    (u >= 97 && u <= 122) || (u >= 65 && u <= 90) || (u >= 48 && u <= 57) || u == 95
}

fn digit_char(c: char) -> (r: bool)
    ensures
        r == is_digit_char(c),
{
    let u = c as u32;
    u >= 48 && u <= 57
}

/// Recognises the array pattern `<identifier>[<n>]` and hands back the base
/// name, or `None` for a name of any other shape.
pub fn array_base(name: &str) -> (r: Option<String>)
    ensures
        is_array_name(name@) ==> (r is Some && r->Some_0@ == array_base_of(name@)),
        !is_array_name(name@) ==> r is None,
{
    let n = name.unicode_len();
    let mut i: usize = 0;
    while i < n && word_char(name.get_char(i))
        invariant
            n == name@.len(),
            i <= n,
            forall|k: int| 0 <= k < i ==> is_word_char(#[trigger] name@[k]),
        decreases n - i,
    {
        i = i + 1;
    }
    if i == n {
        // no bracket at all: at any candidate split the bracket position
        // would have to hold a word character
        assert(!is_array_name(name@)) by {
            assert forall|j: int| !array_split_at(name@, j) by {
                if 0 <= j < n {
                    assert(is_word_char(name@[j]));
                }
            }
        }
        return None;
    }
    let c = name.get_char(i);
    if c != '[' {
        assert(!is_array_name(name@)) by {
            assert forall|j: int| !array_split_at(name@, j) by {
                if array_split_at(name@, j) {
                    if j < i {
                        assert(is_word_char(name@[j]));
                    } else if j == i {
                        assert(name@[j] == '[');
                    } else {
                        assert(is_word_char(name@[i as int]));
                    }
                }
            }
        }
        return None;
    }
    if i == 0 {
        assert(!is_array_name(name@)) by {
            assert forall|j: int| !array_split_at(name@, j) by {
                if array_split_at(name@, j) {
                    assert(is_word_char(name@[0]));
                }
            }
        }
        return None;
    }
    // from here on, the only candidate split position is i
    assert forall|j: int| array_split_at(name@, j) implies j == i by {
        if j < i {
            assert(is_word_char(name@[j]));
        }
        if j > i {
            assert(is_word_char(name@[i as int]));
        }
    }
    if n - i <= 2 {
        assert(!is_array_name(name@)) by {
            if is_array_name(name@) {
                let j = choose|j: int| array_split_at(name@, j);
                assert(j == i as int);
            }
        }
        return None;
    }
    if name.get_char(n - 1) != ']' {
        assert(!is_array_name(name@)) by {
            if is_array_name(name@) {
                let j = choose|j: int| array_split_at(name@, j);
                assert(j == i as int);
            }
        }
        return None;
    }
    let mut k: usize = i + 1;
    while k < n - 1
        invariant
            n == name@.len(),
            i + 2 < n,
            i < k <= n - 1,
            forall|m: int| i < m < k ==> is_digit_char(#[trigger] name@[m]),
            forall|j: int| array_split_at(name@, j) ==> j == i as int,
        decreases n - k,
    {
        if !digit_char(name.get_char(k)) {
            assert(!is_array_name(name@)) by {
                assert(!is_digit_char(name@[k as int]));
                if is_array_name(name@) {
                    let j = choose|j: int| array_split_at(name@, j);
                    assert(j == i as int);
                }
            }
            return None;
        }
        k = k + 1;
    }
    assert(array_split_at(name@, i as int));
    let base = name.substring_char(0, i).to_owned();
    proof {
        let j = choose|j: int| array_split_at(name@, j);
        lemma_array_split_unique(name@, j, i as int);
    }
    Some(base)
}

/// The grouping key of a Port: the array base name for array-pattern names,
/// the literal name otherwise.
pub open spec fn group_key(p: Port) -> Seq<char> {
    if is_array_name(p.name@) {
        array_base_of(p.name@)
    } else {
        p.name@
    }
}

/// The grouping keys in order of first appearance, each once.
pub open spec fn distinct_keys(ports: Seq<Port>) -> Seq<Seq<char>>
    decreases ports.len(),
{
    if ports.len() == 0 {
        Seq::empty()
    } else {
        let d = distinct_keys(ports.drop_last());
        if d.contains(group_key(ports.last())) {
            d
        } else {
            d.push(group_key(ports.last()))
        }
    }
}

/// The Ports that belong to one group, in their original order.
pub open spec fn key_filter(ports: Seq<Port>, key: Seq<char>) -> Seq<Port> {
    ports.filter(|p: Port| group_key(p) == key)
}

/// The direction a group gets from its first Port's physical pin name:
/// input if the input table binds it, else output if the output table does,
/// else don't care.
pub open spec fn spec_io_type(
    input: Seq<PinEntry>,
    output: Seq<PinEntry>,
    pin_name: Seq<char>,
) -> IOType {
    if spec_lookup(input, pin_name) is Some {
        IOType::INPUT
    } else if spec_lookup(output, pin_name) is Some {
        IOType::OUTPUT
    } else {
        IOType::DC
    }
}

proof fn lemma_distinct_keys_no_dup(ports: Seq<Port>)
    ensures
        forall|j1: int, j2: int|
            0 <= j1 < j2 < distinct_keys(ports).len() ==> distinct_keys(ports)[j1]
                != distinct_keys(ports)[j2],
    decreases ports.len(),
{
    if ports.len() > 0 {
        lemma_distinct_keys_no_dup(ports.drop_last());
        let d = distinct_keys(ports.drop_last());
        let key = group_key(ports.last());
        if !d.contains(key) {
            assert(forall|j: int| 0 <= j < d.len() ==> d[j] != key);
        }
    }
}

proof fn lemma_distinct_keys_cover(ports: Seq<Port>, i: int)
    requires
        0 <= i < ports.len(),
    ensures
        distinct_keys(ports).contains(group_key(ports[i])),
    decreases ports.len(),
{
    let d = distinct_keys(ports.drop_last());
    let key = group_key(ports.last());
    if i == ports.len() - 1 {
        if d.contains(key) {
        } else {
            assert(distinct_keys(ports)[d.len() as int] == key);
        }
    } else {
        lemma_distinct_keys_cover(ports.drop_last(), i);
        let j = choose|j: int|
            0 <= j < d.len() && d[j] == group_key(ports.drop_last()[i]);
        assert(distinct_keys(ports)[j] == group_key(ports[i]));
    }
}

proof fn lemma_key_filter_push(s: Seq<Port>, p: Port, key: Seq<char>)
    ensures
        group_key(p) == key ==> key_filter(s.push(p), key) == key_filter(s, key).push(p),
        group_key(p) != key ==> key_filter(s.push(p), key) == key_filter(s, key),
{
    reveal(Seq::filter);
    assert(s.push(p).drop_last() =~= s);
    assert(s.push(p).last() == p);
}

proof fn lemma_key_filter_empty(s: Seq<Port>, key: Seq<char>)
    requires
        forall|i: int| 0 <= i < s.len() ==> group_key(#[trigger] s[i]) != key,
    ensures
        key_filter(s, key) =~= Seq::<Port>::empty(),
    decreases s.len(),
{
    reveal(Seq::filter);
    if s.len() > 0 {
        assert(forall|i: int|
            0 <= i < s.drop_last().len() ==> group_key(#[trigger] s.drop_last()[i]) != key);
        lemma_key_filter_empty(s.drop_last(), key);
        assert(group_key(s.last()) != key);
    }
}

/// Resolves the group's direction from its first Port's pin name.
fn classify_io_type(port_mapping: &PortMappings, pin_name: &String) -> (r: IOType)
    ensures
        r == spec_io_type(port_mapping.input@, port_mapping.output@, pin_name@),
{
    if lookup_pin(&port_mapping.input, pin_name).is_some() {
        IOType::INPUT
    } else if lookup_pin(&port_mapping.output, pin_name).is_some() {
        IOType::OUTPUT
    } else {
        IOType::DC
    }
}

/// Groups Ports by base name: names of the shape `<identifier>[<n>]` share
/// the group of their identifier, every other name forms its own group.
/// Groups appear in order of first appearance, each group keeps its Ports
/// in the original order, and each group's direction comes from its first
/// Port's pin name looked up in the input table, then the output table.
pub fn group_ports(ports: &Vec<Port>, port_mapping: PortMappings) -> (r: Vec<IOPort>)
    ensures
        r@.len() == distinct_keys(ports@).len(),
        forall|j: int|
            0 <= j < r@.len() ==> {
                &&& (#[trigger] r@[j]).io_name@ == distinct_keys(ports@)[j]
                &&& r@[j].ports@ == key_filter(ports@, distinct_keys(ports@)[j])
                &&& r@[j].ports@.len() > 0
                &&& r@[j].data == 0
                &&& r@[j].io_type == spec_io_type(
                    port_mapping.input@,
                    port_mapping.output@,
                    r@[j].ports@[0].pin_name@,
                )
            },
{
    let n = ports.len();
    let mut groups: Vec<IOPort> = Vec::new();
    let mut i: usize = 0;
    assert(ports@.take(0) =~= Seq::<Port>::empty());
    while i < n
        invariant
            n == ports@.len(),
            i <= n,
            groups@.len() == distinct_keys(ports@.take(i as int)).len(),
            forall|j: int|
                0 <= j < groups@.len() ==> {
                    &&& (#[trigger] groups@[j]).io_name@ == distinct_keys(ports@.take(i as int))[j]
                    &&& groups@[j].ports@ == key_filter(
                        ports@.take(i as int),
                        distinct_keys(ports@.take(i as int))[j],
                    )
                    &&& groups@[j].ports@.len() > 0
                    &&& groups@[j].data == 0
                    &&& groups@[j].io_type == spec_io_type(
                        port_mapping.input@,
                        port_mapping.output@,
                        groups@[j].ports@[0].pin_name@,
                    )
                },
        decreases n - i,
    {
        let ghost prefix = ports@.take(i as int);
        let ghost dk = distinct_keys(prefix);
        let p = ports[i].clone();
        assert(p == ports@[i as int]);
        let key: String = match array_base(p.name.as_str()) {
            Some(base) => base,
            None => p.name.clone(),
        };
        assert(key@ == group_key(ports@[i as int]));
        proof {
            assert(ports@.take(i as int + 1).drop_last() =~= prefix);
            assert(ports@.take(i as int + 1).last() == ports@[i as int]);
            assert(ports@.take(i as int + 1) =~= prefix.push(ports@[i as int]));
            lemma_distinct_keys_no_dup(prefix);
        }
        // look for an existing group with this key
        let mut j: usize = 0;
        let g = groups.len();
        let mut found = false;
        while j < g && !found
            invariant
                g == groups@.len(),
                j <= g,
                !found ==> forall|m: int| 0 <= m < j ==> (#[trigger] groups@[m]).io_name@ != key@,
                found ==> (j < g && groups@[j as int].io_name@ == key@),
            decreases g - j + (if found { 0int } else { 1int }),
        {
            if groups[j].io_name == key {
                found = true;
            } else {
                j = j + 1;
            }
        }
        let ghost next_dk = distinct_keys(ports@.take(i as int + 1));
        if found {
            proof {
                assert(dk[j as int] == key@);
                assert(dk.contains(group_key(ports@[i as int])));
                assert(next_dk == dk);
            }
            let ghost pre_groups = groups@;
            let mut grp = groups.remove(j);
            grp.ports.push(p);
            let ghost updated = grp;
            groups.insert(j, grp);
            proof {
                assert(groups@ =~= pre_groups.update(j as int, updated));
                assert(updated.ports@ == pre_groups[j as int].ports@.push(ports@[i as int]));
            }
        } else {
            proof {
                assert forall|m: int| 0 <= m < dk.len() implies dk[m] != key@ by {
                    assert(groups@[m].io_name@ == dk[m]);
                    assert(groups@[m].io_name@ != key@);
                }
                if dk.contains(group_key(ports@[i as int])) {
                    let m = choose|m: int|
                        0 <= m < dk.len() && dk[m] == group_key(ports@[i as int]);
                    assert(groups@[m].io_name@ == key@);
                    assert(false);
                }
                assert(next_dk =~= dk.push(key@));
                // no earlier Port carries this key, so its filter was empty
                assert forall|m: int| 0 <= m < prefix.len() implies group_key(
                    #[trigger] prefix[m],
                ) != key@ by {
                    if group_key(prefix[m]) == key@ {
                        lemma_distinct_keys_cover(prefix, m);
                        let d = choose|d: int| 0 <= d < dk.len() && dk[d] == group_key(prefix[m]);
                        assert(groups@[d].io_name@ == key@);
                    }
                }
                lemma_key_filter_empty(prefix, key@);
            }
            let io_type = classify_io_type(&port_mapping, &p.pin_name);
            let mut members: Vec<Port> = Vec::new();
            members.push(p);
            let new_group = IOPort { io_type, io_name: key, ports: members, data: 0u64 };
            groups.push(new_group);
        }
        proof {
            assert forall|m: int| 0 <= m < next_dk.len() implies {
                &&& (#[trigger] groups@[m]).io_name@ == next_dk[m]
                &&& groups@[m].ports@ == key_filter(ports@.take(i as int + 1), next_dk[m])
                &&& groups@[m].ports@.len() > 0
                &&& groups@[m].data == 0
                &&& groups@[m].io_type == spec_io_type(
                    port_mapping.input@,
                    port_mapping.output@,
                    groups@[m].ports@[0].pin_name@,
                )
            } by {
                lemma_key_filter_push(prefix, ports@[i as int], next_dk[m]);
            }
        }
        i = i + 1;
    }
    assert(ports@.take(n as int) =~= ports@);
    groups
}

} // verus!
