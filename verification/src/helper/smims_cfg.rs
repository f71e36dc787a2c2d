use vstd::prelude::*;

use vstd::string::StringExecFns;

verus! {

/// The device configuration, read out of the board's registers by the
/// transport layer and handed over as plain values.
#[derive(Debug, Clone, Copy)]
pub struct CfgData {
    pub vericomm_clock_highdelay: u16,
    pub vericomm_clock_lowdelay: u16,
    pub vericomm_isv: u16,
    pub vericomm_clockcheck_enable: bool,
    pub veri_sdk_channel_selector: u16,
    pub mode_selector: u16,
    pub flash_begin_block_addr: u16,
    pub flash_begin_cluster_addr: u16,
    pub flash_read_end_block_addr: u16,
    pub flash_read_end_cluster_addr: u16,
    pub security_key: u16,
    pub smims_version: u16,
    pub smims_majorversion: u16,
    pub smims_subversion: u16,
    pub smims_subsubversion: u16,
    pub fifo_size: u16,
    pub flash_total_block: u16,
    pub flash_block_size: u16,
    pub flash_cluster_size: u16,
    pub vericomm_ability: bool,
    pub veri_instrument_ability: bool,
    pub veri_link_ability: bool,
    pub veri_soc_ability: bool,
    pub vericomm_pro_ability: bool,
    pub veri_sdk_ability: bool,
    pub is_programmed: bool,
    pub is_pcb_connect: bool,
    pub is_vericomm_clockcontinue: bool,
}

/// One row of the rendered configuration: a field name and its value as
/// prefixed hex text.
#[derive(Debug)]
pub struct CfgTable {
    pub field: String,
    pub value: String,
}

pub open spec fn hex_digit_char(d: int) -> char {
    seq!['0', '1', '2', '3', '4', '5', '6', '7', '8', '9', 'a', 'b', 'c', 'd', 'e', 'f'][d]
}

/// The hex digits of `v`, most significant first, without leading zeros.
pub open spec fn spec_hex_digits(v: int) -> Seq<char>
    decreases v,
{
    if v < 16 {
        seq![hex_digit_char(v)]
    } else {
        spec_hex_digits(v / 16).push(hex_digit_char(v % 16))
    }
}

/// `v` as prefixed hex text, padded with a zero to at least two digits.
pub open spec fn spec_hex_format(v: int) -> Seq<char> {
    if v < 16 {
        seq!['0', 'x', '0', hex_digit_char(v)]
    } else {
        seq!['0', 'x'] + spec_hex_digits(v)
    }
}

fn hex_digit_str(d: u16) -> (r: &'static str)
    requires
        d < 16,
    ensures
        r@ == seq![hex_digit_char(d as int)],
{
    proof {
        reveal_strlit("0");
        reveal_strlit("1");
        reveal_strlit("2");
        reveal_strlit("3");
        reveal_strlit("4");
        reveal_strlit("5");
        reveal_strlit("6");
        reveal_strlit("7");
        reveal_strlit("8");
        reveal_strlit("9");
        reveal_strlit("a");
        reveal_strlit("b");
        reveal_strlit("c");
        reveal_strlit("d");
        reveal_strlit("e");
        reveal_strlit("f");
    }
    let r: &'static str = match d {
        0 => "0",
        1 => "1",
        2 => "2",
        3 => "3",
        4 => "4",
        5 => "5",
        6 => "6",
        7 => "7",
        8 => "8",
        9 => "9",
        10 => "a",
        11 => "b",
        12 => "c",
        13 => "d",
        14 => "e",
        _ => "f",
    };
    assert(r@ =~= seq![hex_digit_char(d as int)]);
    r
}

/// Renders a register value the way the configuration table shows it:
/// `0x` followed by lowercase hex digits, zero-padded to two.
pub fn hex_u16(v: u16) -> (r: String)
    ensures
        r@ == spec_hex_format(v as int),
{
    proof {
        reveal_strlit("0x");
        reveal_strlit("0x0");
    }
    if v < 16 {
        let s = "0x0".to_owned().concat(hex_digit_str(v));
        assert(s@[0] == '0' && s@[1] == 'x' && s@[2] == '0');
        assert(s@[3] == hex_digit_char(v as int));
        assert(s@ =~= spec_hex_format(v as int));
        s
    } else if v < 256 {
        let d1 = v / 16;
        let d0 = v % 16;
        let s = "0x".to_owned().concat(hex_digit_str(d1)).concat(hex_digit_str(d0));
        proof {
            reveal_with_fuel(spec_hex_digits, 2);
            assert(spec_hex_digits(v as int) =~= seq![
                hex_digit_char(d1 as int),
                hex_digit_char(d0 as int),
            ]);
        }
        assert(s@[0] == '0' && s@[1] == 'x');
        assert(s@[2] == hex_digit_char(d1 as int) && s@[3] == hex_digit_char(d0 as int));
        assert(s@ =~= spec_hex_format(v as int));
        s
    } else if v < 4096 {
        let r1 = v / 16;
        let d0 = v % 16;
        let d1 = r1 % 16;
        let d2 = r1 / 16;
        let s = "0x".to_owned().concat(hex_digit_str(d2)).concat(hex_digit_str(d1)).concat(
            hex_digit_str(d0),
        );
        proof {
            reveal_with_fuel(spec_hex_digits, 3);
            assert(spec_hex_digits(v as int) =~= seq![
                hex_digit_char(d2 as int),
                hex_digit_char(d1 as int),
                hex_digit_char(d0 as int),
            ]);
        }
        assert(s@[0] == '0' && s@[1] == 'x');
        assert(s@[2] == hex_digit_char(d2 as int) && s@[3] == hex_digit_char(d1 as int) && s@[4]
            == hex_digit_char(d0 as int));
        assert(s@ =~= spec_hex_format(v as int));
        s
    } else {
        let r1 = v / 16;
        let r2 = r1 / 16;
        let d0 = v % 16;
        let d1 = r1 % 16;
        let d2 = r2 % 16;
        let d3 = r2 / 16;
        let s = "0x".to_owned().concat(hex_digit_str(d3)).concat(hex_digit_str(d2)).concat(
            hex_digit_str(d1),
        ).concat(hex_digit_str(d0));
        proof {
            reveal_with_fuel(spec_hex_digits, 4);
            assert(spec_hex_digits(v as int) =~= seq![
                hex_digit_char(d3 as int),
                hex_digit_char(d2 as int),
                hex_digit_char(d1 as int),
                hex_digit_char(d0 as int),
            ]);
        }
        assert(s@[0] == '0' && s@[1] == 'x');
        assert(s@[2] == hex_digit_char(d3 as int) && s@[3] == hex_digit_char(d2 as int) && s@[4]
            == hex_digit_char(d1 as int) && s@[5] == hex_digit_char(d0 as int));
        assert(s@ =~= spec_hex_format(v as int));
        s
    }
}

pub open spec fn spec_flag(b: bool) -> int {
    if b {
        1
    } else {
        0
    }
}

fn flag_u16(b: bool) -> (r: u16)
    ensures
        r as int == spec_flag(b),
{
    if b {
        1
    } else {
        0
    }
}

fn row(field: &str, value: String) -> (r: CfgTable)
    ensures
        r.field@ == field@,
        r.value == value,
{
    CfgTable { field: field.to_owned(), value }
}

impl CfgTable {
    /// Renders a configuration as one row per field, each value as
    /// prefixed hex, in the table's fixed order.
    #[verifier::rlimit(30)]
    pub fn from_cfg(cfg: &CfgData) -> (r: Vec<CfgTable>)
        ensures
            r@.len() == 28,
            r@[0].field@ == "Clock High Delay"@ && r@[0].value@ == spec_hex_format(
                cfg.vericomm_clock_highdelay as int,
            ),
            r@[1].field@ == "Clock Low Delay"@ && r@[1].value@ == spec_hex_format(
                cfg.vericomm_clock_lowdelay as int,
            ),
            r@[2].field@ == "Vericomm ISV"@ && r@[2].value@ == spec_hex_format(
                cfg.vericomm_isv as int,
            ),
            r@[3].field@ == "Vericomm Clockcheck Enable"@ && r@[3].value@ == spec_hex_format(
                spec_flag(cfg.vericomm_clockcheck_enable),
            ),
            r@[4].field@ == "Veri SDK Channel Selector"@ && r@[4].value@ == spec_hex_format(
                cfg.veri_sdk_channel_selector as int,
            ),
            r@[5].field@ == "Mode Selector"@ && r@[5].value@ == spec_hex_format(
                cfg.mode_selector as int,
            ),
            r@[6].field@ == "Flash Begin Block Addr"@ && r@[6].value@ == spec_hex_format(
                cfg.flash_begin_block_addr as int,
            ),
            r@[7].field@ == "Flash Begin Cluster Addr"@ && r@[7].value@ == spec_hex_format(
                cfg.flash_begin_cluster_addr as int,
            ),
            r@[8].field@ == "Flash Read End Block Addr"@ && r@[8].value@ == spec_hex_format(
                cfg.flash_read_end_block_addr as int,
            ),
            r@[9].field@ == "Flash Read End Cluster Addr"@ && r@[9].value@ == spec_hex_format(
                cfg.flash_read_end_cluster_addr as int,
            ),
            r@[10].field@ == "Security Key"@ && r@[10].value@ == spec_hex_format(
                cfg.security_key as int,
            ),
            r@[11].field@ == "SMIMS Version"@ && r@[11].value@ == spec_hex_format(
                cfg.smims_version as int,
            ),
            r@[12].field@ == "SMIMS Major Version"@ && r@[12].value@ == spec_hex_format(
                cfg.smims_majorversion as int,
            ),
            r@[13].field@ == "SMIMS Sub Version"@ && r@[13].value@ == spec_hex_format(
                cfg.smims_subversion as int,
            ),
            r@[14].field@ == "SMIMS Subsub Version"@ && r@[14].value@ == spec_hex_format(
                cfg.smims_subsubversion as int,
            ),
            r@[15].field@ == "FIFO Size"@ && r@[15].value@ == spec_hex_format(cfg.fifo_size as int),
            r@[16].field@ == "Flash Total Block"@ && r@[16].value@ == spec_hex_format(
                cfg.flash_total_block as int,
            ),
            r@[17].field@ == "Flash Block Size"@ && r@[17].value@ == spec_hex_format(
                cfg.flash_block_size as int,
            ),
            r@[18].field@ == "Flash Cluster Size"@ && r@[18].value@ == spec_hex_format(
                cfg.flash_cluster_size as int,
            ),
            r@[19].field@ == "Vericomm Ability"@ && r@[19].value@ == spec_hex_format(
                spec_flag(cfg.vericomm_ability),
            ),
            r@[20].field@ == "Veri Instrument Ability"@ && r@[20].value@ == spec_hex_format(
                spec_flag(cfg.veri_instrument_ability),
            ),
            r@[21].field@ == "Veri Link Ability"@ && r@[21].value@ == spec_hex_format(
                spec_flag(cfg.veri_link_ability),
            ),
            r@[22].field@ == "Veri SOC Ability"@ && r@[22].value@ == spec_hex_format(
                spec_flag(cfg.veri_soc_ability),
            ),
            r@[23].field@ == "Vericomm Pro Ability"@ && r@[23].value@ == spec_hex_format(
                spec_flag(cfg.vericomm_pro_ability),
            ),
            r@[24].field@ == "Veri SDK Ability"@ && r@[24].value@ == spec_hex_format(
                spec_flag(cfg.veri_sdk_ability),
            ),
            r@[25].field@ == "Is Programmed"@ && r@[25].value@ == spec_hex_format(
                spec_flag(cfg.is_programmed),
            ),
            r@[26].field@ == "Is PCB Connect"@ && r@[26].value@ == spec_hex_format(
                spec_flag(cfg.is_pcb_connect),
            ),
            r@[27].field@ == "Is Vericomm Clockcontinue"@ && r@[27].value@ == spec_hex_format(
                spec_flag(cfg.is_vericomm_clockcontinue),
            ),
    {
        let mut rows: Vec<CfgTable> = Vec::new();
        rows.push(row("Clock High Delay", hex_u16(cfg.vericomm_clock_highdelay)));
        rows.push(row("Clock Low Delay", hex_u16(cfg.vericomm_clock_lowdelay)));
        rows.push(row("Vericomm ISV", hex_u16(cfg.vericomm_isv)));
        rows.push(
            row("Vericomm Clockcheck Enable", hex_u16(flag_u16(cfg.vericomm_clockcheck_enable))),
        );
        rows.push(row("Veri SDK Channel Selector", hex_u16(cfg.veri_sdk_channel_selector)));
        rows.push(row("Mode Selector", hex_u16(cfg.mode_selector)));
        rows.push(row("Flash Begin Block Addr", hex_u16(cfg.flash_begin_block_addr)));
        rows.push(row("Flash Begin Cluster Addr", hex_u16(cfg.flash_begin_cluster_addr)));
        rows.push(row("Flash Read End Block Addr", hex_u16(cfg.flash_read_end_block_addr)));
        rows.push(row("Flash Read End Cluster Addr", hex_u16(cfg.flash_read_end_cluster_addr)));
        rows.push(row("Security Key", hex_u16(cfg.security_key)));
        rows.push(row("SMIMS Version", hex_u16(cfg.smims_version)));
        rows.push(row("SMIMS Major Version", hex_u16(cfg.smims_majorversion)));
        rows.push(row("SMIMS Sub Version", hex_u16(cfg.smims_subversion)));
        rows.push(row("SMIMS Subsub Version", hex_u16(cfg.smims_subsubversion)));
        rows.push(row("FIFO Size", hex_u16(cfg.fifo_size)));
        rows.push(row("Flash Total Block", hex_u16(cfg.flash_total_block)));
        rows.push(row("Flash Block Size", hex_u16(cfg.flash_block_size)));
        rows.push(row("Flash Cluster Size", hex_u16(cfg.flash_cluster_size)));
        rows.push(row("Vericomm Ability", hex_u16(flag_u16(cfg.vericomm_ability))));
        rows.push(row("Veri Instrument Ability", hex_u16(flag_u16(cfg.veri_instrument_ability))));
        rows.push(row("Veri Link Ability", hex_u16(flag_u16(cfg.veri_link_ability))));
        rows.push(row("Veri SOC Ability", hex_u16(flag_u16(cfg.veri_soc_ability))));
        rows.push(row("Vericomm Pro Ability", hex_u16(flag_u16(cfg.vericomm_pro_ability))));
        rows.push(row("Veri SDK Ability", hex_u16(flag_u16(cfg.veri_sdk_ability))));
        rows.push(row("Is Programmed", hex_u16(flag_u16(cfg.is_programmed))));
        rows.push(row("Is PCB Connect", hex_u16(flag_u16(cfg.is_pcb_connect))));
        rows.push(
            row("Is Vericomm Clockcontinue", hex_u16(flag_u16(cfg.is_vericomm_clockcontinue))),
        );
        rows
    }
}

} // verus!
