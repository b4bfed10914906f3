mod text;
pub mod token;
pub mod tokenizer;
pub mod deabbreviator;
pub mod disambiguator;
pub mod document;
pub mod axis;
pub mod value;
pub mod expression;
pub mod parser;
pub mod xml;
pub mod evaluate;
