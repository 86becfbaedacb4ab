//! Encoder for the InfluxDB line protocol: typed field values, escaping,
//! validated measurements and newline-joined batches.

pub mod batch;
pub mod decimal;
pub mod endpoint;
pub mod error;
pub mod escape;
pub mod field_value;
pub mod float_text;
pub mod join;
pub mod measurement;
pub mod ordered;

pub use batch::encode_batch;
pub use escape::{escape_comma_equals_space, escape_field_value, escape_measurement_name};
pub use field_value::FieldValue;
pub use float_text::FloatText;
pub use endpoint::{make_bucket_url, make_write_endpoint_url};
pub use error::Error;
pub use measurement::{Measurement, MeasurementBuilder};
pub use ordered::OrderedMap;
