pub mod bitstream;
pub mod constraints;
pub mod smims_cfg;
