pub mod bpsk;
