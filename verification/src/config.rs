//! Where a run reads the document from and where it writes the records to.

use vstd::prelude::*;
use vstd::string::StringExecFns;

verus! {

/// The address that serves the full text of the document.
pub const SOURCE_URL: &'static str =
    "https://ocw.mit.edu/ans7870/6/6.006/s08/lecturenotes/files/t8.shakespeare.txt";

/// The directory of the output file, relative to the working directory.
pub const OUTPUT_DIRECTORY: &'static str = "data";

/// The name of the output file in its directory.
pub const OUTPUT_FILE: &'static str = "sonnets.json";

/// The inputs of a run.
#[derive(Debug, Clone, PartialEq, Eq)]
pub struct Config {
    /// The address that serves the full text of the document.
    pub url: String,
    /// The directory of the output file; created if it is absent.
    pub directory: String,
    /// The name of the output file in `directory`.
    pub file: String,
}

impl Config {
    /// The path of the output file: the directory, a slash, and the file.
    pub open spec fn spec_output_path(&self) -> Seq<char> {
        self.directory@ + seq!['/'] + self.file@
    }

    /// The path of the output file.
    pub fn output_path(&self) -> (path: String)
        ensures
            path@ == self.spec_output_path(),
    {
        let mut path = self.directory.clone();
        proof {
            reveal_strlit("/");
            assert("/"@ =~= seq!['/']);
        }
        path.append("/");
        path.append(self.file.as_str());
        path
    }
}

impl Default for Config {
    /// The fixed address and output path.
    fn default() -> (config: Config)
        ensures
            config.url@ == SOURCE_URL@,
            config.directory@ == OUTPUT_DIRECTORY@,
            config.file@ == OUTPUT_FILE@,
    {
        Config {
            url: SOURCE_URL.to_owned(),
            directory: OUTPUT_DIRECTORY.to_owned(),
            file: OUTPUT_FILE.to_owned(),
        }
    }
}

} // verus!
