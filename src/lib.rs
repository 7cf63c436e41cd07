/// Identity of callers: the authenticated caller and bearer-token parsing.
pub mod auth;
/// What the identity provider says of a user, and how claims become a user.
pub mod clerk;
/// The transactional game store: games, seats, life log, commander damage.
pub mod database;
/// Errors of the store and of the session layer.
pub mod errors;
/// General properties of the store's operations, proved.
pub mod guarantees;
/// The session service: each mutation is stored, then announced.
pub mod handlers;
/// Records and messages.
pub mod models;
/// Strategies for elimination and for choosing a winner.
pub mod policy;
mod stamps;
/// The room registry: one broadcast channel per game, and who is attached.
pub mod state;
/// Streaming connections: attaching, request dispatch and connection lifecycle.
pub mod websocket;
