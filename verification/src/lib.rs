//! Decoder for Xbox 360 XUI binaries: XUIZ resource archives, XUIB (XUR)
//! scene binaries in their v5 and v8 encodings, and the XUI XML writer.
pub mod text;
pub mod xui;
pub mod xur;

