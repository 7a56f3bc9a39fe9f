//! The configuration data model.

use crate::text::texts;
use vstd::prelude::*;
use vstd::string::StringExecFns;

verus! {

/// A whole configuration.
#[derive(Debug, Clone)]
pub struct GarnixConfig {
    pub builds: BuildsConfig,
    pub incrementalize_builds: IncrementalizeBuilds,
    pub servers: Vec<ServerConfig>,
}

/// Either one build rule or an ordered list of them.
#[derive(Debug, Clone)]
pub enum BuildsConfig {
    Single(BuildEntry),
    Multiple(Vec<BuildEntry>),
}

/// One build rule: patterns to include and to exclude, and the branch the
/// rule is for; a rule without a branch is for every branch.
#[derive(Debug, Clone)]
pub struct BuildEntry {
    pub includes: Vec<String>,
    pub exclude: Vec<String>,
    pub branch: Option<String>,
}

/// Whether builds are incremental: on or off for all branches, or on for
/// all but the branches named.
#[derive(Debug, Clone)]
pub enum IncrementalizeBuilds {
    Boolean(bool),
    ExcludesBranches { exclude_branches: Vec<String> },
}

/// A server: the configuration it runs and when it is deployed.
#[derive(Debug, Clone)]
pub struct ServerConfig {
    pub configuration: String,
    pub deployment: DeploymentConfig,
}

/// When a server is deployed: on every pull request, or on one branch.
#[derive(Debug, Clone)]
pub enum DeploymentConfig {
    OnPullRequest,
    OnBranch { branch: String },
}

/// The include patterns of a rule that names none.
pub open spec fn default_include_texts() -> Seq<Seq<char>> {
    seq![
        "*.x86_64-linux.*"@,
        "defaultPackage.x86_64-linux"@,
        "devShell.x86_64-linux"@,
        "homeConfigurations.*"@,
        "darwinConfigurations.*"@,
        "nixosConfigurations.*"@,
    ]
}

/// The include patterns of a rule that names none.
pub fn default_includes() -> (patterns: Vec<String>)
    ensures
        texts(patterns@) == default_include_texts(),
{
    let mut patterns: Vec<String> = Vec::new();
    patterns.push(String::from_str("*.x86_64-linux.*"));
    patterns.push(String::from_str("defaultPackage.x86_64-linux"));
    patterns.push(String::from_str("devShell.x86_64-linux"));
    patterns.push(String::from_str("homeConfigurations.*"));
    patterns.push(String::from_str("darwinConfigurations.*"));
    patterns.push(String::from_str("nixosConfigurations.*"));
    proof {
        assert(texts(patterns@) =~= default_include_texts());
    }
    patterns
}

impl BuildEntry {
    /// Whether this is the rule that a configuration without rules stands for.
    pub open spec fn is_default(self) -> bool {
        &&& texts(self.includes@) == default_include_texts()
        &&& self.exclude@.len() == 0
        &&& self.branch is None
    }
}

impl Default for BuildEntry {
    fn default() -> (entry: Self)
        ensures
            entry.is_default(),
    {
        BuildEntry { includes: default_includes(), exclude: Vec::new(), branch: None }
    }
}

impl BuildsConfig {
    /// The rules of the configuration, in their configured order.
    pub open spec fn rules(self) -> Seq<BuildEntry> {
        match self {
            BuildsConfig::Single(entry) => seq![entry],
            BuildsConfig::Multiple(entries) => entries@,
        }
    }

    /// The rules of the configuration, in their configured order.
    pub fn entries(&self) -> (entries: Vec<&BuildEntry>)
        ensures
            referents(entries@) == self.rules(),
    {
        let mut found: Vec<&BuildEntry> = Vec::new();
        match self {
            BuildsConfig::Single(entry) => {
                found.push(entry);
            },
            BuildsConfig::Multiple(entries) => {
                let mut i: usize = 0;
                while i < entries.len()
                    invariant
                        i <= entries.len(),
                        referents(found@) == entries@.take(i as int),
                    decreases entries.len() - i,
                {
                    let ghost earlier = found@;
                    found.push(&entries[i]);
                    proof {
                        lemma_referents_push(earlier, &entries@[i as int]);
                        assert(entries@.take(i + 1) =~= entries@.take(i as int).push(
                            entries@[i as int],
                        ));
                    }
                    i += 1;
                }
                proof {
                    assert(entries@.take(i as int) =~= entries@);
                }
            },
        }
        proof {
            assert(referents(found@) =~= self.rules());
        }
        found
    }
}

/// The rules that a vector of borrowed rules points to.
pub open spec fn referents(entries: Seq<&BuildEntry>) -> Seq<BuildEntry> {
    Seq::new(entries.len(), |i: int| *entries[i])
}

/// The referents of a vector that grew by one borrowed rule.
pub proof fn lemma_referents_push(entries: Seq<&BuildEntry>, entry: &BuildEntry)
    ensures
        referents(entries.push(entry)) == referents(entries).push(*entry),
{
    assert(referents(entries.push(entry)) =~= referents(entries).push(*entry));
}

impl Default for BuildsConfig {
    fn default() -> (builds: Self)
        ensures
            builds matches BuildsConfig::Single(entry) && entry.is_default(),
    {
        BuildsConfig::Single(BuildEntry::default())
    }
}

impl Default for IncrementalizeBuilds {
    fn default() -> (flag: Self)
        ensures
            flag == IncrementalizeBuilds::Boolean(false),
    {
        IncrementalizeBuilds::Boolean(false)
    }
}

impl Default for GarnixConfig {
    fn default() -> (config: Self)
        ensures
            config.builds matches BuildsConfig::Single(entry) && entry.is_default(),
            config.incrementalize_builds == IncrementalizeBuilds::Boolean(false),
            config.servers@.len() == 0,
    {
        GarnixConfig {
            builds: BuildsConfig::default(),
            incrementalize_builds: IncrementalizeBuilds::default(),
            servers: Vec::new(),
        }
    }
}

} // verus!
