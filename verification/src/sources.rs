pub mod bam;
pub mod source;
