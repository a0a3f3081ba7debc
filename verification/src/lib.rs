//! A one-dimensional route of discrete steps, some of which are one-way
//! teleportation portals, and a single agent (an ant) that advances along
//! the route one tick at a time. An open portal redirects the agent to its
//! destination index and closes the instant it is used, so each portal
//! fires at most once; a closed portal is inert and is walked over like an
//! empty step.

pub mod route;
pub mod world;
