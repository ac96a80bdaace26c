//! Maven coordinates for the bootstrap: a package is a group, an artifact
//! and a version, and from those the jar file name and the repository URL
//! are built.

use vstd::prelude::*;
use crate::util::{chars_of, string_from_chars};

verus! {

#[derive(Debug, Clone)]
pub struct MavenPackage {
    pub group_id: String,
    pub artifact_id: String,
    pub version: String,
}

/// The group id with every `.` turned into `/`, as it appears in a
/// repository path.
pub open spec fn spec_slash_path(s: Seq<char>) -> Seq<char> {
    s.map_values(|c: char| if c == '.' { '/' } else { c })
}

impl MavenPackage {
    pub open spec fn spec_file_name(&self) -> Seq<char> {
        self.artifact_id@ + "-"@ + self.version@ + ".jar"@
    }

    pub open spec fn spec_url(&self) -> Seq<char> {
        "https://repo1.maven.org/maven2/"@ + spec_slash_path(self.group_id@) + "/"@
            + self.artifact_id@ + "/"@ + self.version@ + "/"@ + self.spec_file_name()
    }

    pub fn new(group_id: &str, artifact_id: &str, version: &str) -> (r: Self)
        ensures
            r.group_id@ == group_id@,
            r.artifact_id@ == artifact_id@,
            r.version@ == version@,
    {
        Self {
            group_id: group_id.to_owned(),
            artifact_id: artifact_id.to_owned(),
            version: version.to_owned(),
        }
    }

    pub fn file_name(&self) -> (r: String)
        ensures
            r@ == self.spec_file_name(),
    {
        let mut s = self.artifact_id.clone();
        s.append("-");
        s.append(self.version.as_str());
        s.append(".jar");
        s
    }

    pub fn url(&self) -> (r: String)
        ensures
            r@ == self.spec_url(),
    {
        let mut s = String::from_str("https://repo1.maven.org/maven2/");
        let slashed = slash_path(self.group_id.as_str());
        s.append(slashed.as_str());
        s.append("/");
        s.append(self.artifact_id.as_str());
        s.append("/");
        s.append(self.version.as_str());
        s.append("/");
        let file = self.file_name();
        s.append(file.as_str());
        s
    }
}

/// Turns every `.` of the group id into `/`.
fn slash_path(s: &str) -> (r: String)
    ensures
        r@ == spec_slash_path(s@),
{
    let cs = chars_of(s);
    let mut out: Vec<char> = Vec::new();
    let mut i: usize = 0;
    while i < cs.len()
        invariant
            i <= cs.len(),
            cs@ == s@,
            out@ == spec_slash_path(s@.take(i as int)),
        decreases cs.len() - i,
    {
        let c = cs[i];
        if c == '.' {
            out.push('/');
        } else {
            out.push(c);
        }
        proof {
            assert(s@.take(i + 1 as int).map_values(|c: char| if c == '.' { '/' } else { c })
                =~= s@.take(i as int).map_values(|c: char| if c == '.' { '/' } else { c })
                    + seq![if s@[i as int] == '.' { '/' } else { s@[i as int] }]);
        }
        i = i + 1;
    }
    proof {
        assert(s@.take(s@.len() as int) =~= s@);
    }
    string_from_chars(&out)
}

} // verus!
