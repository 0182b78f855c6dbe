//! MiniKV: a key-value store of strings kept in memory, made durable by an
//! append-only log of its writes and by snapshot files, and served over a
//! line protocol.

pub mod comando;
pub mod diccionario;
pub mod leyes;
pub mod leyes_comandos;
pub mod minikv;
pub mod minikv_errors;
pub mod protocolo;
pub mod texto;
