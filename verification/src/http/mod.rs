pub mod websocket;
pub mod headers;
pub mod request;
pub mod response;
pub mod serv;
pub mod laws;
