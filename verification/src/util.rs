pub mod alias;
pub mod perms;
pub mod regexresponse;
pub mod response;
