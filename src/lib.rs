pub mod options;
pub mod resynthesis;
pub mod window_source;
pub mod reassembly;
pub mod lfe;
pub mod window_size;
