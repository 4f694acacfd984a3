pub mod chunk;
pub mod closure;
pub mod compiler;
pub mod debug;
pub mod function;
pub mod heap;
pub mod laws;
pub mod native;
pub mod scanner;
pub mod token;
pub mod value;
pub mod vm;
