//! The analyzers.

pub mod ioc;

pub use ioc::IocAnalyzer;
