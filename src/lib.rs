//! A verified bridge between a native typed-value model and a foreign
//! managed-object runtime reached only through an environment facade.
//!
//! `value` holds the native values and the shapes they are read back as,
//! `env` the facade and its object store, `ser` and `de` the two directions
//! of the bridge, `laws` what holds of them together, `vm` the attached
//! threads and global references, and `callback` the callable handles built
//! on them. The `datashare` modules hold the data records that the storage
//! service passes across the same boundary.

pub mod batch_update;
pub mod business_error;
pub mod callback;
pub mod datashare;
pub mod datashare_wrapper;
pub mod de;
pub mod env;
pub mod error;
pub mod laws;
pub mod ser;
pub mod text;
pub mod typed_array;
pub mod value;
pub mod vm;
