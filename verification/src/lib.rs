//! Per-channel power statistics over two-dimensional spectral data
//! (time samples by frequency channels), and boolean channel masks that
//! flag interference-contaminated or anomalously cold channels for
//! downstream signal-processing pipelines.

pub mod bandpass;
pub mod error;
pub mod filter;
pub mod stats;
pub mod view;

pub use bandpass::bandpass;
pub use bandpass::Profile;
pub use error::Error;
pub use filter::Filter;
pub use filter::Tolerance;
pub use filter::Tsys;
pub use stats::median;
pub use stats::Ratio;
pub use view::to_spectra;
pub use view::SpectraView;
