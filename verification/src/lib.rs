pub mod chunk;
pub mod compiler;
pub mod error;
pub mod scanner;
pub mod stack;
pub mod table;
pub mod util;
pub mod value;
pub mod vm;
