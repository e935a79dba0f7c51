pub mod addr;
pub mod allocator;
pub mod frame;
pub mod mapper;
pub mod page_alloc;
