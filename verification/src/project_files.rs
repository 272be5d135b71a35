//! The files a new project starts with.

use vstd::prelude::*;
use crate::text::{append, concat};

verus! {

/// The file whose presence marks a project root for tools that look for one.
pub const ROOT_MARKER_FILE: &'static str = "pom.xml";

/// What the root marker file holds.
pub const ROOT_MARKER_CONTENTS: &'static str = "This file is to make sure root finders find this project (do not remove)";

/// The `.gitignore` of a new project with a git repository.
pub const GITIGNORE_CONTENTS: &'static str = "target/\n*.class\n*.jar\n*.log\n.env\n.idea/\n.vscode/\n*.iml\n.DS_Store\n";

/// The text before the class name in the example class.
pub const EXAMPLE_HEAD: &'static str = "\n/* Created with LazyJava */ \npublic class ";

/// The text after the class name in the example class.
pub const EXAMPLE_TAIL: &'static str = " {\n        \n    public static void main(String[] args) {\n        System.out.println(\"Hello world!\");\n        System.out.println(\"Welcome to your LazyJava project\");\n    }\n}\n";

/// The source of the example class `name` that a new project starts with:
/// a `main` that greets the user.
pub fn example_class(name: &str) -> (r: String)
    ensures
        r@ == EXAMPLE_HEAD@ + name@ + EXAMPLE_TAIL@,
{
    let mut r = concat(EXAMPLE_HEAD, name);
    append(&mut r, EXAMPLE_TAIL);
    r
}

} // verus!
