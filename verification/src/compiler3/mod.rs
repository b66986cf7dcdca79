pub mod leblanc_type;
pub mod symbols;
