pub mod cache;
pub mod cpu;
pub mod dispatch;
pub mod external;
pub mod family;
pub mod kind;
