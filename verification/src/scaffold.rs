//! Decisions of the project-creation command.
//!
//! Creating a project is file-system work done elsewhere; what stands here is
//! what that command decides and renders: whether a project name may be used,
//! how a description is escaped for the configuration file, and the text of
//! that file.

use vstd::prelude::*;
use vstd::string::*;

verus! {

/// Decides whether a project may be created under a name, given whether a
/// directory of that name already exists; an existing directory aborts the
/// command with a message.
#[allow(unused_variables)]
pub fn is_project_name_valid(project_name: &String, directory_exists: bool) -> (r: (bool, String))
    ensures
        r.0 == !directory_exists,
        directory_exists ==> r.1@ == "🙅 Project directory already exists. Aborting."@,
        !directory_exists ==> r.1@ == ""@,
{
    if directory_exists {
        (false, String::from_str("🙅 Project directory already exists. Aborting."))
    } else {
        proof {
            reveal_strlit("");
            assert(""@ =~= Seq::<char>::empty());
        }
        (true, String::new())
    }
}

/// The description with every double quote preceded by a backslash, as it
/// must stand inside the quoted configuration value.
pub open spec fn escaped(s: Seq<char>) -> Seq<char>
    decreases s.len(),
{
    if s.len() == 0 {
        Seq::empty()
    } else {
        escaped(s.drop_last()) + (if s.last() == '"' {
            seq!['\\', '"']
        } else {
            seq![s.last()]
        })
    }
}

/// Escapes the double quotes of a freshly prompted project description.
pub fn escape_quotes(s: &str) -> (r: String)
    ensures
        r@ == escaped(s@),
{
    let n: usize = s.unicode_len();
    let mut r = String::new();
    let mut i: usize = 0;
    while i < n
        invariant
            i <= n,
            n == s@.len(),
            r@ == escaped(s@.take(i as int)),
        decreases n - i,
    {
        let c = s.get_char(i);
        if c == '"' {
            r.append("\\\"");
            proof {
                reveal_strlit("\\\"");
            }
        } else {
            let piece = s.substring_char(i, i + 1);
            r.append(piece);
        }
        proof {
            let t = s@.take(i + 1 as int);
            assert(t.drop_last() =~= s@.take(i as int));
            assert(t.last() == s@[i as int]);
            assert(r@ =~= escaped(t));
        }
        i += 1;
    }
    proof {
        assert(s@.take(n as int) =~= s@);
    }
    r
}

/// The fallback description of a new project, used when the prompt got none.
pub fn default_description(description: String) -> (r: String)
    ensures
        description@.len() > 0 ==> r == description,
        description@.len() == 0 ==> r@ == "A PlainShare project"@,
{
    if description.as_str().is_empty() {
        String::from_str("A PlainShare project")
    } else {
        description
    }
}

/// The text of a fresh project's configuration file: the project's name and
/// escaped description filled into the descriptor template.
pub open spec fn config_text(name: Seq<char>, description: Seq<char>) -> Seq<char> {
    "\nname = \""@ + name + "\"\ndescription = \""@ + description
        + "\"\nbuild_target = \"build\"\n"@
}

/// Renders the configuration file that project creation writes.
pub fn render_config(project_name: &str, project_description: &str) -> (r: String)
    ensures
        r@ == config_text(project_name@, project_description@),
{
    let mut r = String::from_str("\nname = \"");
    r.append(project_name);
    r.append("\"\ndescription = \"");
    r.append(project_description);
    r.append("\"\nbuild_target = \"build\"\n");
    proof {
        assert(r@ =~= config_text(project_name@, project_description@));
    }
    r
}

} // verus!
