//! A tree-walking interpreter for analyzed HPI programs.
//!
//! The interpreter is an abstract machine that takes small steps. It works on
//! a program tree, a scope chain, a store of cells and heap objects, and a
//! stack of frames that tell what remains to be done. It never touches the
//! outside world: where a program writes, waits, computes with floats or
//! reaches a collaborator, a step ends with an [`host::Action`], and the host
//! starts the next step with the [`host::Event`] that answers it.
//!
//! ```text
//! let mut interpreter = Interpreter::new(&program, environment);
//! let mut event = Event::Resume;
//! loop {
//!     let clock = if interpreter.reads_clock() { read_clock() } else { ClockReading::epoch() };
//!     match interpreter.step(event, clock) {
//!         Action::Finish(outcome) => break outcome,
//!         action => event = perform(action),
//!     }
//! }
//! ```
//!
//! What a step does is defined in [`model`], as a function on the state of the
//! machine. [`interpreter`] holds the machine in executable form and is proved
//! to take exactly the steps of the model. [`laws`], [`safety`], [`refs`],
//! [`ends`] and [`runs`] hold what is proved of the model: of single steps,
//! of every state of a run, and of runs as a whole.

pub mod codec;
pub mod ends;
pub mod host;
pub mod interpreter;
pub mod laws;
pub mod messages;
pub mod model;
pub mod ops;
pub mod refs;
pub mod runs;
pub mod safety;
pub mod scope;
pub mod state;
pub mod text;
pub mod tree;
pub mod types;
pub mod value;
pub mod world;
