//! The verified core of an HTTP gateway: permission scopes and their
//! comparison, the service register and its routing, session cookie
//! framing, and the decisions taken by the gateway's middleware and forms.
pub mod per;
pub mod resource;
pub mod lgerror;
pub mod register;
pub mod preserver;
pub mod text;
pub mod authako;
pub mod loger;
pub mod error;
pub mod forms;
pub mod join;
pub mod seission;
pub mod config;
pub mod lgvalue;
pub mod proxy;
