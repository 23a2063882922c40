//! Custom slash commands: prompts kept as Markdown files and called by name.
//!
//! A command of the project lives below `.codex/commands` in the project's
//! directory, a command of the user below `.codex/commands` in the home
//! directory. The file `review/security.md` there is the command
//! `review__security`. The line `/user:review__security the parser` asks for
//! that command of the user; without `user:` or with `project:` it asks for
//! the project's. The prompt is the file's text with the arguments, here
//! `the parser`, in the place of every `$ARGUMENTS`.
//!
//! This library decides and computes; it reads no file, no directory and no
//! environment. [`resolve::expand_custom_command`] turns a line into a prompt
//! and is handed the one function that reads a file. [`discover::Walk`] finds
//! the commands that exist: it says which directory to list next and is told
//! what the directory holds. The project's directory, the home directory and
//! the platform's path separator are parameters.
//!
//! Every function states what it computes, as a function on sequences of
//! characters, and every such statement is proved. The proofs rest on one
//! assumption of the library's own, which [`text`] states: what
//! `String::push` does.
//!
//! * [`text`], [`text_lemmas`]: trimming, searching, replacing.
//! * [`scope`], [`invocation`]: a command line taken apart.
//! * [`path`]: joining paths, and lying within a directory.
//! * [`resolve`]: from a line to its file and its prompt.
//! * [`discover`]: naming the commands that files hold, and the walk.
//! * [`whole_walk`]: what a walk carried through finds.
//! * [`round_trip`]: a command that was found resolves to its file.

pub mod discover;
pub mod invocation;
pub mod path;
pub mod resolve;
pub mod round_trip;
pub mod scope;
pub mod text;
pub mod text_lemmas;
pub mod whole_walk;

pub use discover::Walk;
pub use invocation::parse_invocation;
pub use invocation::Invocation;
pub use path::Separator;
pub use resolve::expand_custom_command;
pub use resolve::resolve_command;
pub use resolve::substitute_arguments;
pub use resolve::Lookup;
pub use scope::Scope;
