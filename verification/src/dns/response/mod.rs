pub mod addrinfo;
pub mod hostent;
