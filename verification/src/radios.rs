pub mod viterbi38;
