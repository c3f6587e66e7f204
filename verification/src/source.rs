//! Where a job downloads from, and the tool that does it.

use vstd::prelude::*;
use vstd::string::*;
use crate::text::{contains, law_occurs, occurs, same_text, texts};

verus! {

/// The site that a URL belongs to.
pub open spec fn source_of(url: Seq<char>) -> Seq<char> {
    if occurs(url, "mega.nz"@) || occurs(url, "mega.co.nz"@) {
        "mega"@
    } else if occurs(url, "instagram.com"@) || occurs(url, "instagr.am"@) {
        "instagram"@
    } else {
        "unknown"@
    }
}

/// The site that a URL belongs to.
pub fn detect_source(url: &str) -> (r: &'static str)
    ensures
        r@ == source_of(url@),
{
    if contains(url, "mega.nz") || contains(url, "mega.co.nz") {
        "mega"
    } else if contains(url, "instagram.com") || contains(url, "instagr.am") {
        "instagram"
    } else {
        "unknown"
    }
}

/// A program that downloads.
#[derive(Clone, Copy, Debug, PartialEq, Eq, Structural)]
pub enum Tool {
    GalleryDl,
    Mega,
}

impl Tool {
    /// The tool for jobs from `source`.
    pub open spec fn of(source: Seq<char>) -> Tool {
        if source == "mega"@ {
            Tool::Mega
        } else {
            Tool::GalleryDl
        }
    }

    /// The name of the program.
    pub open spec fn program_name(self) -> Seq<char> {
        match self {
            Tool::GalleryDl => "gallery-dl"@,
            Tool::Mega => "megadl"@,
        }
    }

    /// What the program comes with.
    pub open spec fn package_name(self) -> Seq<char> {
        match self {
            Tool::GalleryDl => "gallery-dl"@,
            Tool::Mega => "megatools"@,
        }
    }

    /// The arguments that make the program download `url` to the folder `dest`.
    pub open spec fn arguments(self, dest: Seq<char>, url: Seq<char>) -> Seq<Seq<char>> {
        match self {
            Tool::GalleryDl => seq!["-D"@, dest, "--no-mtime"@, url],
            Tool::Mega => seq!["--path"@, dest, url],
        }
    }

    /// The message of a program that could not be started.
    pub open spec fn not_found_message(self, reason: Seq<char>) -> Seq<char> {
        self.package_name() + " not found: "@ + reason
    }

    /// The message of a program that did not succeed.
    pub open spec fn exit_message(self, status: Seq<char>) -> Seq<char> {
        self.program_name() + " exited with "@ + status
    }

    /// The tool for jobs from `source`.
    pub fn for_source(source: &str) -> (r: Tool)
        ensures
            r == Tool::of(source@),
    {
        if same_text(source, "mega") {
            Tool::Mega
        } else {
            Tool::GalleryDl
        }
    }

    /// The name of the program.
    pub fn program(self) -> (r: &'static str)
        ensures
            r@ == self.program_name(),
    {
        match self {
            Tool::GalleryDl => "gallery-dl",
            Tool::Mega => "megadl",
        }
    }

    /// The arguments that make the program download `url` to the folder `dest`.
    pub fn args(self, dest: &str, url: &str) -> (r: Vec<String>)
        ensures
            texts(r@) == self.arguments(dest@, url@),
    {
        let r: Vec<String> = match self {
            Tool::GalleryDl => vec![
                "-D".to_owned(),
                dest.to_owned(),
                "--no-mtime".to_owned(),
                url.to_owned(),
            ],
            Tool::Mega => vec!["--path".to_owned(), dest.to_owned(), url.to_owned()],
        };
        assert(texts(r@) =~= self.arguments(dest@, url@));
        r
    }

    /// The message of a program that could not be started.
    pub fn not_found(self, reason: &str) -> (r: String)
        ensures
            r@ == self.not_found_message(reason@),
    {
        let package = match self {
            Tool::GalleryDl => "gallery-dl",
            Tool::Mega => "megatools",
        };
        package.to_owned().concat(" not found: ").concat(reason)
    }

    /// The message of a program that did not succeed.
    pub fn exited(self, status: &str) -> (r: String)
        ensures
            r@ == self.exit_message(status@),
    {
        self.program().to_owned().concat(" exited with ").concat(status)
    }
}

/// A URL belongs to mega exactly where it names one of mega's domains, to
/// Instagram where it names none of these and one of Instagram's, and otherwise
/// to no site that is known.
pub proof fn law_source(url: Seq<char>)
    ensures
        source_of(url) == "mega"@ <==> occurs(url, "mega.nz"@) || occurs(url, "mega.co.nz"@),
        source_of(url) == "instagram"@ <==> !occurs(url, "mega.nz"@) && !occurs(
            url,
            "mega.co.nz"@,
        ) && (occurs(url, "instagram.com"@) || occurs(url, "instagr.am"@)),
        source_of(url) == "unknown"@ <==> !occurs(url, "mega.nz"@) && !occurs(url, "mega.co.nz"@)
            && !occurs(url, "instagram.com"@) && !occurs(url, "instagr.am"@),
{
    reveal_strlit("mega");
    reveal_strlit("instagram");
    reveal_strlit("unknown");
    assert("mega"@.len() == 4 && "instagram"@.len() == 9 && "unknown"@.len() == 7);
}

/// Whatever stands round the name of a domain, the URL belongs to its site.
pub proof fn law_domain_decides(before: Seq<char>, after: Seq<char>)
    ensures
        source_of(before + "mega.nz"@ + after) == "mega"@,
        source_of(before + "mega.co.nz"@ + after) == "mega"@,
        source_of(before + "instagram.com"@ + after) == "instagram"@ || source_of(
            before + "instagram.com"@ + after,
        ) == "mega"@,
        source_of(before + "instagr.am"@ + after) == "instagram"@ || source_of(
            before + "instagr.am"@ + after,
        ) == "mega"@,
{
    law_occurs(before, "mega.nz"@, before, after);
    law_occurs(before, "mega.co.nz"@, before, after);
    law_occurs(before, "instagram.com"@, before, after);
    law_occurs(before, "instagr.am"@, before, after);
}

/// megadl downloads from mega, and gallery-dl from everywhere else.
pub proof fn law_tool(url: Seq<char>, source: Seq<char>)
    ensures
        Tool::of(source) == Tool::Mega <==> source == "mega"@,
        Tool::of(source_of(url)) == Tool::Mega <==> occurs(url, "mega.nz"@) || occurs(
            url,
            "mega.co.nz"@,
        ),
        Tool::of(source).program_name() == if source == "mega"@ {
            "megadl"@
        } else {
            "gallery-dl"@
        },
{
    law_source(url);
}

/// The program is given the URL, as its last argument, and the folder, behind
/// the option for it; nothing else that it is given depends on the job.
pub proof fn law_arguments(tool: Tool, dest: Seq<char>, url: Seq<char>)
    ensures
        ({
            let args = tool.arguments(dest, url);
            &&& args.len() >= 3
            &&& args.last() == url
            &&& args[1] == dest
            &&& args[0] == if tool == Tool::Mega {
                "--path"@
            } else {
                "-D"@
            }
            &&& forall|i: int|
                2 <= i < args.len() - 1 ==> tool == Tool::GalleryDl && #[trigger] args[i]
                    == "--no-mtime"@
            &&& tool == Tool::Mega <==> args.len() == 3
            &&& tool == Tool::GalleryDl <==> args.len() == 4
        }),
{
}

/// What a program that failed is reported with: which program or package, what
/// was wrong with it, and the reason or status as it was given.
pub proof fn law_messages(reason: Seq<char>)
    ensures
        Tool::GalleryDl.not_found_message(reason) == "gallery-dl"@ + " not found: "@ + reason,
        Tool::Mega.not_found_message(reason) == "megatools"@ + " not found: "@ + reason,
        Tool::GalleryDl.exit_message(reason) == "gallery-dl"@ + " exited with "@ + reason,
        Tool::Mega.exit_message(reason) == "megadl"@ + " exited with "@ + reason,
{
}

} // verus!
