//! QIR labeled formatting: renders the shots of a quantum job in the QIR
//! output specification's "labeled" schema.

pub mod labeled_formatter;
pub mod laws;
pub mod lines;
pub mod rendering_laws;
pub mod text;
pub mod value;

pub use labeled_formatter::{
    FormattedValue, QirLabeledFormatter, QirMetadata, QirOutput, QsysShot, QsysShotItem, QsysShots,
};
pub use value::{FloatValue, QShotValType, QsysShotItemValue};
