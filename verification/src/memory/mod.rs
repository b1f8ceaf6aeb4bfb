pub mod os_trim;
