use vstd::prelude::*;

use crate::ports::{IOPort, IOType};

verus! {

/// One renderable row per grouped signal: its direction, base name, and
/// current aggregate value.
#[derive(Debug)]
pub struct IOPortsTable {
    pub io_type: IOType,
    pub port_name: String,
    pub data: u64,
}

/// The rows of a signal list: one per IOPort that is not don't-care, in
/// order.
pub open spec fn spec_table_rows(io_ports: Seq<IOPort>) -> Seq<IOPortsTable>
    decreases io_ports.len(),
{
    if io_ports.len() == 0 {
        Seq::empty()
    } else {
        let rest = spec_table_rows(io_ports.drop_last());
        let p = io_ports.last();
        if p.io_type == IOType::DC {
            rest
        } else {
            rest.push(IOPortsTable { io_type: p.io_type, port_name: p.io_name, data: p.data })
        }
    }
}

impl IOPortsTable {
    /// Builds the rows to render: don't-care signals are left out, the
    /// rest keep their order, name, direction and value.
    pub fn from_io(io_ports: &Vec<IOPort>) -> (r: Vec<Self>)
        ensures
            r@ == spec_table_rows(io_ports@),
    {
        let mut rows: Vec<IOPortsTable> = Vec::new();
        let n = io_ports.len();
        let mut i: usize = 0;
        assert(io_ports@.take(0) =~= Seq::<IOPort>::empty());
        while i < n
            invariant
                n == io_ports@.len(),
                i <= n,
                rows@ == spec_table_rows(io_ports@.take(i as int)),
            decreases n - i,
        {
            proof {
                assert(io_ports@.take(i as int + 1).drop_last() =~= io_ports@.take(i as int));
                assert(io_ports@.take(i as int + 1).last() == io_ports@[i as int]);
            }
            let port = &io_ports[i];
            match port.io_type {
                IOType::DC => {},
                _ => {
                    rows.push(
                        IOPortsTable {
                            io_type: port.io_type,
                            port_name: port.io_name.clone(),
                            data: port.data,
                        },
                    );
                },
            }
            i = i + 1;
        }
        assert(io_ports@.take(n as int) =~= io_ports@);
        rows
    }
}

} // verus!
