pub mod render;
pub mod scan;
pub mod scanner;
pub mod session;
pub mod token;

pub use session::error;
pub use session::Diagnostic;
pub use session::Lox;
pub use session::RuntimeError;
pub use token::Literal;
pub use token::Token;
pub use token::TokenKind;
