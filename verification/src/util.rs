pub mod nexus_log;
pub mod test;
