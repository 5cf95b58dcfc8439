//! An output buffer and a fake web service.
pub mod test_writer;
pub mod fake_client;
