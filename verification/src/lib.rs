//! Small text tools: `cat`, `echo`, `find`, `head` (two versions), `uniq`
//! and `wc`. Each module holds what its tool decides and computes; reading
//! files and the command line, and printing, are left to the caller.
pub mod text;
pub mod catr;
pub mod echor;
pub mod findr;
pub mod headr;
pub mod headr_old;
pub mod uniqr;
pub mod wcr;
