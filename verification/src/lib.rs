//! IMG2PB2 library core: turns a decoded picture into PB2 `<bg>` background
//! objects, decodes the picture formats it accepts into RGBA pixels, and
//! checks the values a user types into the placement form.

pub mod text;
pub mod material;
pub mod raster;
pub mod decode;
pub mod convert;
pub mod session;
