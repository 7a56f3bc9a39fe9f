//! Attributes of a flake: which ones its description offers, and how one is
//! named for the build command.

use crate::document::{entries_of, json_document, lookup, parse_document, Node};
use crate::error::GarnixError;
use crate::text::{
    chars_of, has_char, join_path, joined, lemma_texts_push, same_text, starts_with, strip,
    stripped, texts, Strip,
};
use vstd::prelude::*;
use vstd::std_specs::vec::axiom_vec_index_decreases;
use vstd::string::StringExecFns;

verus! {

/// How a command ended, and what it printed.
#[derive(Debug, Clone)]
pub struct CommandOutput {
    pub success: bool,
    pub stdout: String,
    pub stderr: String,
}

/// A program and its arguments.
#[derive(Debug, Clone)]
pub struct BuildCommand {
    pub program: String,
    pub args: Vec<String>,
}

/// A flake, by the path of its directory.
#[derive(Debug, Clone)]
pub struct NixFlake {
    pub flake_path: String,
}

/// Whether a node can be built as it stands: a mapping whose `type` is
/// `derivation` or `nixos-configuration`, or a mapping without `type` none
/// of whose values is a mapping.
pub open spec fn is_buildable(node: Node) -> bool {
    match node {
        Node::Mapping(entries) => match lookup(entries@, "type"@) {
            Some(Node::Text(kind)) => kind@ == "derivation"@ || kind@ == "nixos-configuration"@,
            Some(_) => false,
            None => forall|i: int| 0 <= i < entries@.len() ==> !((#[trigger] entries@[i]).1 is Mapping),
        },
        _ => false,
    }
}

/// Whether a key has the shape of a platform identifier, such as
/// `x86_64-linux`.
pub open spec fn looks_like_platform(key: Seq<char>) -> bool {
    key.contains('-') && ("x86_64-"@.is_prefix_of(key) || "aarch64-"@.is_prefix_of(key))
}

/// Whether a key names a platform other than `system`.
pub open spec fn is_foreign_platform(key: Seq<char>, system: Seq<char>) -> bool {
    key.len() > 0 && key != system && looks_like_platform(key)
}

/// Whether the subtree under `key` is passed over: `key` is the second
/// segment of a path and names a platform other than `system`.
pub open spec fn pruned(path: Seq<Seq<char>>, key: Seq<char>, system: Seq<char>) -> bool {
    path.len() == 1 && is_foreign_platform(key, system)
}

/// Whether a path lies in one of the categories whose members are always
/// buildable.
pub open spec fn is_special_root(path: Seq<Seq<char>>) -> bool {
    path.len() > 0 && (path[0] == "darwinConfigurations"@ || path[0] == "homeConfigurations"@)
}

/// The paths of the buildable leaves found in the first `upto` entries of
/// `node`, which lies at `path`, in the order of the walk.
///
/// An entry is passed over where it is pruned. It is a leaf where its value
/// is buildable or `path` lies in a special category. Else the walk goes
/// down into its value.
pub open spec fn leaf_paths_upto(
    node: Node,
    upto: nat,
    path: Seq<Seq<char>>,
    system: Seq<char>,
) -> Seq<Seq<Seq<char>>>
    decreases node, upto,
{
    match node {
        Node::Mapping(entries) => {
            if 0 < upto <= entries@.len() {
                let key = entries@[upto - 1].0@;
                let child = entries@[upto - 1].1;
                let earlier = leaf_paths_upto(node, (upto - 1) as nat, path, system);
                if pruned(path, key, system) {
                    earlier
                } else if is_buildable(child) || is_special_root(path) {
                    earlier.push(path.push(key))
                } else {
                    proof {
                        axiom_vec_index_decreases(entries, upto - 1);
                    }
                    earlier + leaf_paths_upto(
                        child,
                        entries_of(child).len(),
                        path.push(key),
                        system,
                    )
                }
            } else {
                Seq::empty()
            }
        },
        _ => Seq::empty(),
    }
}

/// The paths of the buildable leaves under `node`, which lies at `path`.
pub open spec fn leaf_paths(node: Node, path: Seq<Seq<char>>, system: Seq<char>) -> Seq<
    Seq<Seq<char>>,
> {
    leaf_paths_upto(node, entries_of(node).len(), path, system)
}

/// Each path written as an attribute name.
pub open spec fn attribute_names(paths: Seq<Seq<Seq<char>>>) -> Seq<Seq<char>> {
    Seq::new(paths.len(), |i: int| joined(paths[i]))
}

/// What holds of every path that the walk under `node` gives: it goes on
/// from `path`; in a special category it is one key longer than `path`; and
/// its second segment is no platform other than `system`.
pub proof fn lemma_leaf_paths(
    node: Node,
    upto: nat,
    path: Seq<Seq<char>>,
    system: Seq<char>,
    i: int,
)
    requires
        0 <= i < leaf_paths_upto(node, upto, path, system).len(),
    ensures
        ({
            let found = leaf_paths_upto(node, upto, path, system)[i];
            &&& found.len() > path.len()
            &&& found.take(path.len() as int) == path
            &&& is_special_root(path) ==> found.len() == path.len() + 1
            &&& path.len() <= 1 && found.len() >= 2 ==> !is_foreign_platform(found[1], system)
            &&& path.len() == 0 && is_special_root(found) ==> found.len() <= 2
        }),
    decreases node, upto,
{
    match node {
        Node::Mapping(entries) => {
            if 0 < upto <= entries@.len() {
                let key = entries@[upto - 1].0@;
                let child = entries@[upto - 1].1;
                let earlier = leaf_paths_upto(node, (upto - 1) as nat, path, system);
                let here = path.push(key);
                if i < earlier.len() {
                    lemma_leaf_paths(node, (upto - 1) as nat, path, system, i);
                } else if pruned(path, key, system) {
                } else if is_buildable(child) || is_special_root(path) {
                    assert(here.take(path.len() as int) =~= path);
                } else {
                    axiom_vec_index_decreases(entries, upto - 1);
                    let deeper = leaf_paths_upto(child, entries_of(child).len(), here, system);
                    let found = deeper[i - earlier.len()];
                    lemma_leaf_paths(child, entries_of(child).len(), here, system, i - earlier.len());
                    assert(found.take(path.len() as int) =~= found.take(here.len() as int).take(
                        path.len() as int,
                    ));
                    assert(here.take(path.len() as int) =~= path);
                    assert(found.take(here.len() as int)[path.len() as int] == key);
                    if path.len() > 0 {
                        assert(here[0] == path[0]);
                    } else {
                        assert(found[0] == here[0]);
                    }
                }
            }
        },
        _ => {},
    }
}

/// Of the platforms under a category, only the current one is walked: no
/// attribute has another platform as its second segment.
pub proof fn lemma_foreign_platforms_pruned(document: Node, system: Seq<char>, i: int)
    requires
        0 <= i < leaf_paths(document, Seq::empty(), system).len(),
    ensures
        ({
            let found = leaf_paths(document, Seq::empty(), system)[i];
            found.len() >= 2 ==> !is_foreign_platform(found[1], system)
        }),
{
    lemma_leaf_paths(document, entries_of(document).len(), Seq::empty(), system, i);
}

/// What lies directly under `darwinConfigurations` or `homeConfigurations`
/// is a leaf, whatever it looks like: no attribute of these categories has
/// more than two segments.
pub proof fn lemma_special_members_are_leaves(document: Node, system: Seq<char>, i: int)
    requires
        0 <= i < leaf_paths(document, Seq::empty(), system).len(),
    ensures
        ({
            let found = leaf_paths(document, Seq::empty(), system)[i];
            is_special_root(found) ==> found.len() <= 2
        }),
{
    lemma_leaf_paths(document, entries_of(document).len(), Seq::empty(), system, i);
}

/// The name under which an attribute is built. Configurations of a system
/// are built through their top-level derivation, home configurations through
/// their activation package; every other attribute is built as it stands.
pub open spec fn build_target(attr: Seq<char>) -> Seq<char> {
    if "nixosConfigurations."@.is_prefix_of(attr) || "darwinConfigurations."@.is_prefix_of(attr) {
        attr + ".config.system.build.toplevel"@
    } else if "homeConfigurations."@.is_prefix_of(attr) {
        attr + ".activationPackage"@
    } else {
        attr
    }
}

/// The argument of the build command for one attribute of the flake at
/// `flake_path`.
pub open spec fn build_argument(flake_path: Seq<char>, attr: Seq<char>) -> Seq<char> {
    flake_path + "#"@ + build_target(attr)
}

/// The arguments of the build command for `attributes`.
pub open spec fn build_arguments(flake_path: Seq<char>, attributes: Seq<Seq<char>>) -> Seq<
    Seq<char>,
> {
    seq!["build"@] + Seq::new(attributes.len(), |i: int| build_argument(flake_path, attributes[i]))
}

/// The output of `nix eval` for the current system, without the white space
/// and the quotes around it.
pub open spec fn cleaned(output: Seq<char>) -> Seq<char> {
    stripped(stripped(output, Strip::Whitespace), Strip::Quotes)
}

/// The path `path` with one more key.
fn extended(path: &Vec<String>, key: &String) -> (longer: Vec<String>)
    ensures
        texts(longer@) == texts(path@).push(key@),
{
    let mut longer: Vec<String> = Vec::new();
    let mut i: usize = 0;
    while i < path.len()
        invariant
            i <= path.len(),
            texts(longer@) == texts(path@).take(i as int),
        decreases path.len() - i,
    {
        let ghost shorter = longer@;
        let item = path[i].clone();
        longer.push(item);
        proof {
            lemma_texts_push(shorter, item);
            assert(texts(path@).take(i + 1) =~= texts(path@).take(i as int).push(path@[i as int]@));
        }
        i += 1;
    }
    let ghost shorter = longer@;
    let last = key.clone();
    longer.push(last);
    proof {
        lemma_texts_push(shorter, last);
        assert(texts(path@).take(i as int) =~= texts(path@));
    }
    longer
}

/// The names of a list of paths that grew by one path.
proof fn lemma_attribute_names_push(paths: Seq<Seq<Seq<char>>>, path: Seq<Seq<char>>)
    ensures
        attribute_names(paths.push(path)) == attribute_names(paths).push(joined(path)),
{
    assert(attribute_names(paths.push(path)) =~= attribute_names(paths).push(joined(path)));
}

/// The names of two lists of paths, one after the other.
proof fn lemma_attribute_names_add(first: Seq<Seq<Seq<char>>>, second: Seq<Seq<Seq<char>>>)
    ensures
        attribute_names(first + second) == attribute_names(first) + attribute_names(second),
{
    assert(attribute_names(first + second) =~= attribute_names(first) + attribute_names(second));
}

impl NixFlake {
    /// The flake in the directory `flake_path`, if that directory holds a
    /// `flake.nix`.
    pub fn new(flake_path: String, has_flake_file: bool) -> (flake: Result<Self, GarnixError>)
        ensures
            has_flake_file ==> (flake matches Ok(found) && found.flake_path@ == flake_path@),
            !has_flake_file ==> flake == Err::<Self, GarnixError>(GarnixError::NoFlakeFound),
    {
        if !has_flake_file {
            return Err(GarnixError::NoFlakeFound);
        }
        Ok(Self { flake_path })
    }

    /// The flake at the root of a git work tree.
    pub fn from_git_root(git_root: String, has_flake_file: bool) -> (flake: Result<
        Self,
        GarnixError,
    >)
        ensures
            has_flake_file ==> (flake matches Ok(found) && found.flake_path@ == git_root@),
            !has_flake_file ==> flake == Err::<Self, GarnixError>(GarnixError::NoFlakeFound),
    {
        Self::new(git_root, has_flake_file)
    }

    /// Reads what `nix flake show --json` gave. A failed command is an error
    /// that carries what it wrote to standard error; output that is not JSON
    /// is an error too.
    pub fn read_flake_show(&self, show: &CommandOutput) -> (document: Result<Node, GarnixError>)
        ensures
            !show.success ==> (document matches Err(GarnixError::NixCommand(detail)) && detail@
                == "nix flake show failed: "@ + show.stderr@),
            show.success ==> match json_document(show.stdout@) {
                Some(tree) => document == Ok::<Node, GarnixError>(tree),
                None => document matches Err(GarnixError::Json(_)),
            },
    {
        if !show.success {
            let detail = String::from_str("nix flake show failed: ").concat(show.stderr.as_str());
            return Err(GarnixError::NixCommand(detail));
        }
        parse_document(show.stdout.as_str())
    }

    /// The attributes that the flake's description offers for
    /// `current_system`, in the order of the walk.
    pub fn discover_attributes(&self, document: &Node, current_system: &str) -> (attributes: Vec<
        String,
    >)
        ensures
            texts(attributes@) == attribute_names(
                leaf_paths(*document, Seq::empty(), current_system@),
            ),
    {
        let mut attributes: Vec<String> = Vec::new();
        let root: Vec<String> = Vec::new();
        proof {
            assert(texts(root@) =~= Seq::<Seq<char>>::empty());
            assert(texts(attributes@) =~= Seq::<Seq<char>>::empty());
        }
        self.extract_attributes(document, root, &mut attributes, current_system);
        proof {
            assert(texts(attributes@) =~= attribute_names(
                leaf_paths(*document, Seq::empty(), current_system@),
            ));
        }
        attributes
    }

    /// The current system: what `nix eval` printed, cleaned, or
    /// `x86_64-linux` where the command failed.
    pub fn get_current_system(&self, eval: &CommandOutput) -> (system: String)
        ensures
            eval.success ==> system@ == cleaned(eval.stdout@),
            !eval.success ==> system@ == "x86_64-linux"@,
    {
        if !eval.success {
            return String::from_str("x86_64-linux");
        }
        self.clean_nix_output(eval.stdout.as_str())
    }

    /// Strips the white space around `output`, then the quotes around what
    /// is left.
    pub fn clean_nix_output(&self, output: &str) -> (clean: String)
        ensures
            clean@ == cleaned(output@),
    {
        let trimmed = strip(output, Strip::Whitespace);
        strip(trimmed.as_str(), Strip::Quotes)
    }

    /// Appends to `attributes` the names of the buildable leaves under
    /// `value`, which lies at `path`.
    pub fn extract_attributes(
        &self,
        value: &Node,
        path: Vec<String>,
        attributes: &mut Vec<String>,
        current_system: &str,
    )
        ensures
            texts(final(attributes)@) == texts(old(attributes)@) + attribute_names(
                leaf_paths(*value, texts(path@), current_system@),
            ),
        decreases *value,
    {
        let ghost before = texts(attributes@);
        let ghost at = texts(path@);
        let ghost system = current_system@;
        match value {
            Node::Mapping(map) => {
                let mut i: usize = 0;
                proof {
                    assert(texts(attributes@) =~= before + attribute_names(
                        leaf_paths_upto(*value, 0, at, system),
                    ));
                }
                while i < map.len()
                    invariant
                        i <= map.len(),
                        *value == Node::Mapping(*map),
                        at == texts(path@),
                        system == current_system@,
                        texts(attributes@) == before + attribute_names(
                            leaf_paths_upto(*value, i as nat, at, system),
                        ),
                    decreases map.len() - i,
                {
                    let key = &map[i].0;
                    let child = &map[i].1;
                    let ghost earlier = leaf_paths_upto(*value, i as nat, at, system);
                    let ghost listed = texts(attributes@);
                    let key_chars = chars_of(key.as_str());
                    let skipped = path.len() == 1 && key_chars.len() > 0 && !same_text(
                        key.as_str(),
                        current_system,
                    ) && has_char(&key_chars, '-') && (starts_with(key.as_str(), "x86_64-")
                        || starts_with(key.as_str(), "aarch64-"));
                    proof {
                        assert(skipped == pruned(at, key@, system));
                    }
                    if !skipped {
                        let new_path = extended(&path, key);
                        let is_special_buildable = path.len() > 0 && (same_text(
                            path[0].as_str(),
                            "darwinConfigurations",
                        ) || same_text(path[0].as_str(), "homeConfigurations"));
                        proof {
                            if path.len() > 0 {
                                assert(at[0] == path@[0]@);
                            }
                            assert(is_special_buildable == is_special_root(at));
                        }
                        if self.is_buildable_attribute(child) || is_special_buildable {
                            let name = join_path(&new_path);
                            let ghost shorter = attributes@;
                            attributes.push(name);
                            proof {
                                lemma_texts_push(shorter, name);
                                lemma_attribute_names_push(earlier, at.push(key@));
                                assert(texts(attributes@) =~= before + attribute_names(
                                    earlier.push(at.push(key@)),
                                ));
                            }
                        } else {
                            proof {
                                axiom_vec_index_decreases(*map, i as int);
                            }
                            self.extract_attributes(child, new_path, attributes, current_system);
                            proof {
                                let deeper = leaf_paths(*child, at.push(key@), system);
                                lemma_attribute_names_add(earlier, deeper);
                                assert(texts(attributes@) =~= before + attribute_names(
                                    earlier + deeper,
                                ));
                            }
                        }
                    }
                    i += 1;
                }
            },
            _ => {
                proof {
                    assert(texts(attributes@) =~= before + attribute_names(
                        leaf_paths(*value, at, system),
                    ));
                }
            },
        }
    }

    /// Whether a node can be built as it stands.
    pub fn is_buildable_attribute(&self, value: &Node) -> (buildable: bool)
        ensures
            buildable == is_buildable(*value),
    {
        match value {
            Node::Mapping(map) => match value.get("type") {
                Some(Node::Text(kind)) => same_text(kind.as_str(), "derivation") || same_text(
                    kind.as_str(),
                    "nixos-configuration",
                ),
                Some(_) => false,
                None => {
                    let mut i: usize = 0;
                    while i < map.len()
                        invariant
                            i <= map.len(),
                            *value == Node::Mapping(*map),
                            lookup(map@, "type"@) is None,
                            forall|k: int| 0 <= k < i ==> !((#[trigger] map@[k]).1 is Mapping),
                        decreases map.len() - i,
                    {
                        if let Node::Mapping(_) = &map[i].1 {
                            return false;
                        }
                        i += 1;
                    }
                    true
                },
            },
            _ => false,
        }
    }

    /// The build command for `attributes`: `nom` where it is at hand, else
    /// `nix`, with `build` and one argument for each attribute. There is
    /// nothing to run for no attributes.
    pub fn build_command(&self, attributes: &[String], use_nom: bool) -> (command: Option<
        BuildCommand,
    >)
        ensures
            attributes@.len() == 0 ==> command is None,
            attributes@.len() > 0 ==> (command matches Some(run) && run.program@ == (if use_nom {
                "nom"@
            } else {
                "nix"@
            }) && texts(run.args@) == build_arguments(self.flake_path@, texts(attributes@))),
    {
        if attributes.len() == 0 {
            return None;
        }
        let program = if use_nom {
            String::from_str("nom")
        } else {
            String::from_str("nix")
        };
        let mut args: Vec<String> = Vec::new();
        args.push(String::from_str("build"));
        let ghost wanted = build_arguments(self.flake_path@, texts(attributes@));
        let mut i: usize = 0;
        while i < attributes.len()
            invariant
                i <= attributes.len(),
                wanted == build_arguments(self.flake_path@, texts(attributes@)),
                texts(args@) == wanted.take(i + 1),
            decreases attributes.len() - i,
        {
            let build_attr = transform_attribute_for_build(attributes[i].as_str());
            let mut argument = self.flake_path.clone();
            argument.append("#");
            argument.append(build_attr.as_str());
            let ghost shorter = args@;
            args.push(argument);
            proof {
                lemma_texts_push(shorter, argument);
                assert(texts(attributes@)[i as int] == attributes@[i as int]@);
                assert(wanted.take(i + 2) =~= wanted.take(i + 1).push(argument@));
            }
            i += 1;
        }
        proof {
            assert(wanted.take(i + 1) =~= wanted);
        }
        Some(BuildCommand { program, args })
    }

    /// The error for a build command that failed. `exit_code` is how the
    /// caller writes the exit code.
    pub fn build_failure(program: &str, exit_code: &str) -> (error: GarnixError)
        ensures
            error matches GarnixError::NixCommand(detail) && detail@ == program@
                + " build failed with exit code: "@ + exit_code@,
    {
        let mut detail = String::from_str(program);
        detail.append(" build failed with exit code: ");
        detail.append(exit_code);
        GarnixError::NixCommand(detail)
    }
}

/// Whether an attribute is a configuration that is built through a member
/// of it.
pub open spec fn is_configuration(attr: Seq<char>) -> bool {
    ||| "nixosConfigurations."@.is_prefix_of(attr)
    ||| "darwinConfigurations."@.is_prefix_of(attr)
    ||| "homeConfigurations."@.is_prefix_of(attr)
}

/// The name under which `attr` is handed to the build command. An attribute
/// that is no configuration keeps its name.
pub fn transform_attribute_for_build(attr: &str) -> (target: String)
    ensures
        target@ == build_target(attr@),
        !is_configuration(attr@) ==> target@ == attr@,
{
    if starts_with(attr, "nixosConfigurations.") || starts_with(attr, "darwinConfigurations.") {
        String::from_str(attr).concat(".config.system.build.toplevel")
    } else if starts_with(attr, "homeConfigurations.") {
        String::from_str(attr).concat(".activationPackage")
    } else {
        String::from_str(attr)
    }
}

} // verus!
