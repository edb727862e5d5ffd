//! A clock-accurate model of a small 16-bit bus-oriented CPU, and the
//! assembler that targets it.
//!
//! The machine is a control unit that drives registers, an ALU and a RAM
//! over one shared bus by means of control lines. Every instruction is a
//! short list of microsteps; in each microstep the control unit asserts a
//! set of lines and every component does what its lines ask of it.
//!
//! - [`bits`], [`bus`] and [`control_cables`] hold the word, the bus and
//!   the control lines.
//! - [`cpu_component`] holds the components, each as a step function over
//!   its own state, and [`microcodes`] the instruction set with its
//!   microcode.
//! - [`machine`] puts the components together and runs them microstep by
//!   microstep.
//! - [`rounds`], [`microsteps`], [`instructions`] and [`programs`] prove,
//!   from the bottom up, that the microcode does what the instruction set
//!   says.
//! - [`text`] and [`assembler`] turn source text into a program image, and
//!   [`decode`] turns words and control lines back into text.

pub mod assembler;
pub mod bits;
pub mod bus;
pub mod control_cables;
pub mod cpu_component;
pub mod decode;
pub mod instructions;
pub mod machine;
pub mod microcodes;
pub mod microsteps;
pub mod programs;
pub mod rounds;
pub mod text;
