use fde_core::helper::smims_cfg::{hex_u16, CfgData, CfgTable};

fn sample_cfg() -> CfgData {
    CfgData {
        vericomm_clock_highdelay: 0,
        vericomm_clock_lowdelay: 0x1a,
        vericomm_isv: 0x123,
        vericomm_clockcheck_enable: true,
        veri_sdk_channel_selector: 1,
        mode_selector: 2,
        flash_begin_block_addr: 3,
        flash_begin_cluster_addr: 4,
        flash_read_end_block_addr: 5,
        flash_read_end_cluster_addr: 6,
        security_key: 0xffff,
        smims_version: 7,
        smims_majorversion: 8,
        smims_subversion: 9,
        smims_subsubversion: 10,
        fifo_size: 0x2000,
        flash_total_block: 11,
        flash_block_size: 12,
        flash_cluster_size: 13,
        vericomm_ability: true,
        veri_instrument_ability: false,
        veri_link_ability: false,
        veri_soc_ability: false,
        vericomm_pro_ability: false,
        veri_sdk_ability: true,
        is_programmed: true,
        is_pcb_connect: false,
        is_vericomm_clockcontinue: false,
    }
}

#[test]
fn test_hex_u16_format() {
    assert_eq!(hex_u16(0), "0x00");
    assert_eq!(hex_u16(1), "0x01");
    assert_eq!(hex_u16(0x0f), "0x0f");
    assert_eq!(hex_u16(0x10), "0x10");
    assert_eq!(hex_u16(0xff), "0xff");
    assert_eq!(hex_u16(0x100), "0x100");
    assert_eq!(hex_u16(0x1a2), "0x1a2");
    assert_eq!(hex_u16(0x1000), "0x1000");
    assert_eq!(hex_u16(0xbeef), "0xbeef");
    assert_eq!(hex_u16(0xffff), "0xffff");
}

#[test]
fn test_from_cfg_rows() {
    let rows: Vec<CfgTable> = CfgTable::from_cfg(&sample_cfg());
    assert_eq!(rows.len(), 28);
    assert_eq!(rows[0].field, "Clock High Delay");
    assert_eq!(rows[0].value, "0x00");
    assert_eq!(rows[1].field, "Clock Low Delay");
    assert_eq!(rows[1].value, "0x1a");
    assert_eq!(rows[2].field, "Vericomm ISV");
    assert_eq!(rows[2].value, "0x123");
    assert_eq!(rows[3].field, "Vericomm Clockcheck Enable");
    assert_eq!(rows[3].value, "0x01");
    assert_eq!(rows[10].field, "Security Key");
    assert_eq!(rows[10].value, "0xffff");
    assert_eq!(rows[15].field, "FIFO Size");
    assert_eq!(rows[15].value, "0x2000");
    assert_eq!(rows[20].field, "Veri Instrument Ability");
    assert_eq!(rows[20].value, "0x00");
    assert_eq!(rows[27].field, "Is Vericomm Clockcontinue");
    assert_eq!(rows[27].value, "0x00");
}
