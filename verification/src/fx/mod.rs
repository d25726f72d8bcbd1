//! Effect timers and gates. Arithmetic on seconds is the caller's: the
//! steps here take the sums and decide what follows from them.

pub mod chroma;
pub mod driver;
pub mod flash;
pub mod gradient;
pub mod life;
pub mod particles;
pub mod transitions;
pub mod trauma;
