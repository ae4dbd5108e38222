//! A line-oriented interpreter for a small stack-based expression language:
//! postfix arithmetic and logic on natural numbers, single-use variable
//! bindings, user-defined single-expression procedures, and an
//! `If`/`Then`/`Else` conditional form.
//!
//! `text` holds the verified tokenizer primitives, `operations` a standalone
//! chain evaluator over signed integers, `stack_lang` the first generation of
//! the engine, and `stack_lang_2` the full engine with procedures and
//! conditionals.

pub mod operations;
pub mod stack_lang;
pub mod stack_lang_2;
pub mod text;
