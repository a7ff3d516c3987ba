pub mod payroll;
pub mod rewards;
