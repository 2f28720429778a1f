//! A rank-1 constraint system builder over the BLS12-377 base field,
//! with boolean gadgets whose witnesses and constraints are proved correct.

pub mod fp;
pub mod decimal;
pub mod mode;
pub mod variable;
pub mod terms;
pub mod lc_lemmas;
pub mod linear_combination;
pub mod text;
pub mod evaluation;
pub mod constraint;
pub mod count;
pub mod counter;
pub mod r1cs;
pub mod assignment;
pub mod circuit;
pub mod traits;
pub mod boolean;
pub mod field;
pub mod example;
