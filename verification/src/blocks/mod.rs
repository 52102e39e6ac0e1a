//! Generic blocks of the MPP format, without domain meaning: property
//! dictionaries, variable-length data with its metadata, and fixed-size
//! data with its metadata.

pub mod fixed_data;
pub mod fixed_meta;
pub mod props;
pub mod var2_data;
pub mod var_meta;

pub use fixed_data::FixedData;
pub use fixed_meta::FixedMeta;
pub use props::Props;
pub use var2_data::Var2Data;
pub use var_meta::VarMeta;
