pub mod ai;
pub mod cli;
pub mod extractor;
pub mod heuristics;
pub mod htaccess;
pub mod matching;
pub mod model;
pub mod paths;
pub mod reporter;
pub mod scanner;
pub mod signature;
pub mod text;
pub mod webshell;
