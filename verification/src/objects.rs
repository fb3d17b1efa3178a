pub mod viterbi_decode;
