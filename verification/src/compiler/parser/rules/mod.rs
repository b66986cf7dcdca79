pub mod declaration_rule;
