//! Decides over which routes to attempt connecting, in which order, and when.
//!
//! * [`route`] prunes the results of name resolution.
//! * [`outcomes`] keeps a record of connection attempts, and derives delays from it.
//! * [`schedule`] puts resolved routes in order. Its parts are a queue ([`queue`]) and a sorting
//!   stream ([`stream`]), and it delays routes by a [`policy`].
//!
//! Nothing here waits, polls or reads the clock. What happened outside is passed in as a plain
//! value, and what to do next is handed back as one. Times are plain numbers too ([`time`]).
//!
//! What holds of the functions is stated as proof functions whose names begin with `law_`. Laws of
//! a single call, which speak of a function's arguments and results alone, are in [`call_laws`] for
//! the schedule, in [`record_laws`] for the record and its delays, and beside the functions for the
//! rest. Laws over several calls are in [`laws`] for the schedule as a whole, in
//! [`waiting_laws`] for the routes that wait for their time, in [`delay_laws`] for the delays that
//! follow from the record, and beside the functions for the rest.

pub mod call_laws;
pub mod delay_laws;
pub mod laws;
pub mod outcomes;
pub mod policy;
pub mod queue;
pub mod record_laws;
pub mod route;
pub mod schedule;
pub mod stream;
pub mod tally;
pub mod time;
pub mod waiting_laws;
