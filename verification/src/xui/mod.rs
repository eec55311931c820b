//! The XUI XML writer and the class extension generator.
pub mod classes;
pub mod doc;
pub mod names;
pub mod parsed;
pub mod writer;

pub use self::classes::collect_custom_classes_from_xur;
pub use self::classes::generate_class_extensions;
pub use self::classes::generate_class_extensions_from_map;
pub use self::classes::generate_single_class_extension;
pub use self::classes::ClassSet;
pub use self::doc::XuiPiece;
pub use self::writer::is_writable;
pub use self::writer::to_xui;
