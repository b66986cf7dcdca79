pub mod leblanc_constants;
pub mod leblanc_keywords;
pub mod leblanc_lang;
pub mod leblanc_operators;
