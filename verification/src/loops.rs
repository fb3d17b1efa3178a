pub mod symbol_sync;
