//! Writers: serialize a scanned tree into a single document, as XML or as
//! plain text.  Both writers build the document in memory; writing it out is
//! the caller's job.

use vstd::prelude::*;
use crate::config::Config;
use crate::git::GitRepoInfo;
use crate::git::spec_host_name;
use crate::types::DirectoryNode;
use crate::types::Metadata;
use crate::types::MetadataView;
use crate::types::Node;
use crate::types::NodeView;
use crate::types::nodes_view;
use crate::utils::dec_digits;
use crate::utils::u64_to_string;
use crate::utils::push_char;

verus! {

broadcast use
    vstd::std_specs::vec::axiom_vec_decreases_to_view,
    vstd::seq::axiom_seq_index_decreases,
    vstd::seq::axiom_seq_subrange_decreases;

/// Facts about the machine, gathered by the caller, shown in the document
/// header.
#[derive(Debug, Clone)]
pub struct SystemInfo {
    /// Hostname of the machine
    pub hostname: String,
    /// Operating system name
    pub os: String,
    /// Operating system family
    pub kernel: String,
}

/// XML escaping of one character.
pub open spec fn xml_escape_char(c: char) -> Seq<char> {
    if c == '&' {
        "&amp;"@
    } else if c == '<' {
        "&lt;"@
    } else if c == '>' {
        "&gt;"@
    } else if c == '"' {
        "&quot;"@
    } else if c == '\'' {
        "&apos;"@
    } else {
        seq![c]
    }
}

/// XML escaping of a text.
pub open spec fn xml_escape(s: Seq<char>) -> Seq<char>
    decreases s,
{
    if s.len() == 0 {
        Seq::empty()
    } else {
        xml_escape(s.drop_last()) + xml_escape_char(s.last())
    }
}

/// Escaping one more character appends its escape.
proof fn lemma_xml_escape_snoc(s: Seq<char>, i: int)
    requires
        0 < i <= s.len(),
    ensures
        xml_escape(s.subrange(0, i)) == xml_escape(s.subrange(0, i - 1)) + xml_escape_char(
            s[i - 1],
        ),
{
    assert(s.subrange(0, i).drop_last() =~= s.subrange(0, i - 1));
    assert(s.subrange(0, i).last() == s[i - 1]);
}

/// Append the XML escaping of a text.
fn xml_escape_append(out: &mut String, s: &str)
    ensures
        final(out)@ == old(out)@ + xml_escape(s@),
{
    let v = crate::utils::chars_of(s);
    let mut i: usize = 0;
    proof {
        assert(s@.subrange(0, 0) =~= Seq::<char>::empty());
        assert(out@ =~= old(out)@ + xml_escape(s@.subrange(0, 0)));
    }
    while i < v.len()
        invariant
            i <= v@.len(),
            v@ == s@,
            out@ =~= old(out)@ + xml_escape(s@.subrange(0, i as int)),
        decreases v@.len() - i,
    {
        let c = v[i];
        if c == '&' {
            out.append("&amp;");
        } else if c == '<' {
            out.append("&lt;");
        } else if c == '>' {
            out.append("&gt;");
        } else if c == '"' {
            out.append("&quot;");
        } else if c == '\'' {
            out.append("&apos;");
        } else {
            push_char(out, c);
        }
        i = i + 1;
        proof {
            lemma_xml_escape_snoc(s@, i as int);
            assert(out@ =~= old(out)@ + xml_escape(s@.subrange(0, i as int)));
        }
    }
    proof {
        assert(s@.subrange(0, s@.len() as int) =~= s@);
    }
}

/// The metadata element of the XML document.
pub open spec fn spec_xml_metadata(m: MetadataView) -> Seq<char> {
    "<metadata><size>"@ + dec_digits(m.size as int) + "</size><modified>"@ + dec_digits(
        m.modified as int,
    ) + "</modified><permissions>"@ + xml_escape(m.permissions) + "</permissions></metadata>"@
}

/// One node of the XML document.
pub open spec fn spec_xml_node(n: NodeView, include_meta: bool) -> Seq<char>
    decreases n,
{
    match n {
        NodeView::Directory { name, path, metadata, contents } => "<directory name=\""@
            + xml_escape(name) + "\" path=\""@ + xml_escape(path) + "\">"@ + (if include_meta {
            spec_xml_metadata(metadata)
        } else {
            Seq::<char>::empty()
        }) + "<contents>"@ + spec_xml_nodes(contents, include_meta) + "</contents></directory>"@,
        NodeView::File { name, path, metadata, content } => "<file name=\""@ + xml_escape(name)
            + "\" path=\""@ + xml_escape(path) + "\">"@ + (if include_meta {
            spec_xml_metadata(metadata)
        } else {
            Seq::<char>::empty()
        }) + "<content>"@ + (match content {
            Some(c) => xml_escape(c),
            None => Seq::<char>::empty(),
        }) + "</content></file>"@,
        NodeView::Binary { name, path, metadata } => "<binary name=\""@ + xml_escape(name)
            + "\" path=\""@ + xml_escape(path) + "\">"@ + (if include_meta {
            spec_xml_metadata(metadata)
        } else {
            Seq::<char>::empty()
        }) + "</binary>"@,
        NodeView::Symlink { name, path, metadata, target } => "<symlink name=\""@ + xml_escape(
            name,
        ) + "\" path=\""@ + xml_escape(path) + "\">"@ + (if include_meta {
            spec_xml_metadata(metadata)
        } else {
            Seq::<char>::empty()
        }) + "<target>"@ + xml_escape(target) + "</target></symlink>"@,
    }
}

/// A forest of nodes of the XML document, in order.
pub open spec fn spec_xml_nodes(s: Seq<NodeView>, include_meta: bool) -> Seq<char>
    decreases s,
{
    if s.len() == 0 {
        Seq::empty()
    } else {
        spec_xml_node(s[0], include_meta) + spec_xml_nodes(s.drop_first(), include_meta)
    }
}

/// One node of the overview: names only, directories recursed.
pub open spec fn spec_xml_overview_node(n: NodeView) -> Seq<char>
    decreases n,
{
    match n {
        NodeView::Directory { name, contents, .. } => "<directory name=\""@ + xml_escape(name)
            + "\">"@ + spec_xml_overview_nodes(contents) + "</directory>"@,
        NodeView::File { name, .. } => "<file name=\""@ + xml_escape(name) + "\"/>"@,
        NodeView::Binary { name, .. } => "<file name=\""@ + xml_escape(name) + "\"/>"@,
        NodeView::Symlink { name, .. } => "<symlink name=\""@ + xml_escape(name) + "\"/>"@,
    }
}

/// A forest of overview nodes, in order.
pub open spec fn spec_xml_overview_nodes(s: Seq<NodeView>) -> Seq<char>
    decreases s,
{
    if s.len() == 0 {
        Seq::empty()
    } else {
        spec_xml_overview_node(s[0]) + spec_xml_overview_nodes(s.drop_first())
    }
}

/// The system information header, with repository identity when scanning a
/// repository.
pub open spec fn spec_xml_system_info(info: SystemInfo, repo: Option<GitRepoInfo>) -> Seq<char> {
    "<system_info><hostname>"@ + xml_escape(info.hostname@) + "</hostname><os>"@ + xml_escape(
        info.os@,
    ) + "</os><kernel>"@ + xml_escape(info.kernel@) + "</kernel>"@ + (match repo {
        Some(g) => "<git_repository><url>"@ + xml_escape(g.url@) + "</url><host>"@ + xml_escape(
            spec_host_name(g.host),
        ) + "</host><owner>"@ + xml_escape(g.owner@) + "</owner><name>"@ + xml_escape(g.name@)
            + "</name></git_repository>"@,
        None => Seq::<char>::empty(),
    }) + "</system_info>"@
}

/// The whole XML document for a scanned tree.
pub open spec fn spec_xml_document(
    cfg: Config,
    root: NodeView,
    info: SystemInfo,
    timestamp: Seq<char>,
) -> Seq<char> {
    "<?xml version=\"1.0\" encoding=\"UTF-8\"?>"@ + "<directory_scan timestamp=\""@ + xml_escape(
        timestamp,
    ) + "\">"@ + spec_xml_system_info(info, cfg.git_repo) + "<overview>"@ + spec_xml_overview_node(
        root,
    ) + "</overview>"@ + spec_xml_node(root, cfg.include_metadata) + "</directory_scan>"@
}

/// XML writer for directory contents.
#[derive(Debug)]
pub struct XmlWriter {
    /// Writer configuration
    pub config: Config,
}

impl XmlWriter {
    /// Create a new XML writer.
    pub fn new(config: Config) -> (r: Self)
        ensures
            r.config == config,
    {
        XmlWriter { config }
    }

    /// Append the metadata element of an entry.
    fn write_metadata(&self, metadata: &Metadata, out: &mut String)
        ensures
            final(out)@ == old(out)@ + spec_xml_metadata(metadata@),
    {
        out.append("<metadata><size>");
        out.append(u64_to_string(metadata.size).as_str());
        out.append("</size><modified>");
        out.append(u64_to_string(metadata.modified).as_str());
        out.append("</modified><permissions>");
        xml_escape_append(out, metadata.permissions.as_str());
        out.append("</permissions></metadata>");
    }

    /// Append an attribute-quoted name and path.
    fn write_name_path(&self, name: &str, path: &str, out: &mut String)
        ensures
            final(out)@ == old(out)@ + xml_escape(name@) + "\" path=\""@ + xml_escape(path@)
                + "\">"@,
    {
        xml_escape_append(out, name);
        out.append("\" path=\"");
        xml_escape_append(out, path);
        out.append("\">");
    }

    /// Append one node of the document.
    fn write_node(&self, node: &Node, out: &mut String)
        ensures
            final(out)@ == old(out)@ + spec_xml_node(node@, self.config.include_metadata),
        decreases *node,
    {
        match node {
            Node::Directory(dir) => {
                proof {
                    assert(decreases_to!(*node => *dir));
                }
                self.write_directory(dir, out);
            },
            Node::File(file) => self.write_file(file, out),
            Node::Binary(binary) => self.write_binary(binary, out),
            Node::Symlink(symlink) => self.write_symlink(symlink, out),
        }
    }

    /// Append a directory element and, recursively, its contents.
    fn write_directory(&self, dir: &DirectoryNode, out: &mut String)
        ensures
            final(out)@ == old(out)@ + spec_xml_node(dir@, self.config.include_metadata),
        decreases *dir,
    {
        out.append("<directory name=\"");
        self.write_name_path(dir.name.as_str(), dir.path.as_str(), out);
        if self.config.include_metadata {
            self.write_metadata(&dir.metadata, out);
        }
        out.append("<contents>");
        let ghost base = out@;
        let mut i: usize = 0;
        proof {
            assert(dir.contents@.subrange(0, 0) =~= Seq::<Node>::empty());
            assert(nodes_view(dir.contents@.subrange(0, 0)) =~= Seq::<NodeView>::empty());
            assert(out@ =~= base + spec_xml_nodes(
                nodes_view(dir.contents@.subrange(0, 0)),
                self.config.include_metadata,
            ));
        }
        while i < dir.contents.len()
            invariant
                i <= dir.contents@.len(),
                out@ =~= base + spec_xml_nodes(
                    nodes_view(dir.contents@.subrange(0, i as int)),
                    self.config.include_metadata,
                ),
            decreases dir.contents@.len() - i,
        {
            proof {
                assert(decreases_to!(*dir => dir.contents));
                assert(decreases_to!(dir.contents => dir.contents@[i as int]));
            }
            self.write_node(&dir.contents[i], out);
            i = i + 1;
            proof {
                assert(dir.contents@.subrange(0, i as int) =~= dir.contents@.subrange(
                    0,
                    i as int - 1,
                ).push(dir.contents@[i as int - 1]));
                crate::types::lemma_nodes_view_push(
                    dir.contents@.subrange(0, i as int - 1),
                    dir.contents@[i as int - 1],
                );
                assert(nodes_view(dir.contents@.subrange(0, i as int)) =~= nodes_view(
                    dir.contents@.subrange(0, i as int - 1),
                ) + seq![dir.contents@[i as int - 1]@]);
                lemma_xml_nodes_snoc(
                    nodes_view(dir.contents@.subrange(0, i as int - 1)),
                    dir.contents@[i as int - 1]@,
                    self.config.include_metadata,
                );
                assert(out@ =~= base + spec_xml_nodes(
                    nodes_view(dir.contents@.subrange(0, i as int)),
                    self.config.include_metadata,
                ));
            }
        }
        proof {
            assert(dir.contents@.subrange(0, dir.contents@.len() as int) =~= dir.contents@);
        }
        out.append("</contents></directory>");
        proof {
            assert(out@ =~= old(out)@ + spec_xml_node(dir@, self.config.include_metadata));
        }
    }

    /// Append a file element with its content.
    fn write_file(&self, file: &crate::types::FileNode, out: &mut String)
        ensures
            final(out)@ == old(out)@ + spec_xml_node(file@, self.config.include_metadata),
    {
        out.append("<file name=\"");
        self.write_name_path(file.name.as_str(), file.path.as_str(), out);
        if self.config.include_metadata {
            self.write_metadata(&file.metadata, out);
        }
        out.append("<content>");
        match &file.content {
            Some(c) => xml_escape_append(out, c.as_str()),
            None => {},
        }
        out.append("</content></file>");
    }

    /// Append a binary element.
    fn write_binary(&self, binary: &crate::types::BinaryNode, out: &mut String)
        ensures
            final(out)@ == old(out)@ + spec_xml_node(binary@, self.config.include_metadata),
    {
        out.append("<binary name=\"");
        self.write_name_path(binary.name.as_str(), binary.path.as_str(), out);
        if self.config.include_metadata {
            self.write_metadata(&binary.metadata, out);
        }
        out.append("</binary>");
    }

    /// Append a symlink element with its target.
    fn write_symlink(&self, symlink: &crate::types::SymlinkNode, out: &mut String)
        ensures
            final(out)@ == old(out)@ + spec_xml_node(symlink@, self.config.include_metadata),
    {
        out.append("<symlink name=\"");
        self.write_name_path(symlink.name.as_str(), symlink.path.as_str(), out);
        if self.config.include_metadata {
            self.write_metadata(&symlink.metadata, out);
        }
        out.append("<target>");
        xml_escape_append(out, symlink.target.as_str());
        out.append("</target></symlink>");
    }

    /// Append one node of the overview: names only.
    fn write_node_overview(&self, node: &Node, out: &mut String)
        ensures
            final(out)@ == old(out)@ + spec_xml_overview_node(node@),
        decreases *node,
    {
        match node {
            Node::Directory(dir) => {
                proof {
                    assert(decreases_to!(*node => *dir));
                }
                self.write_overview_of(dir, out);
            },
            Node::File(f) => {
                out.append("<file name=\"");
                xml_escape_append(out, f.name.as_str());
                out.append("\"/>");
            },
            Node::Binary(b) => {
                out.append("<file name=\"");
                xml_escape_append(out, b.name.as_str());
                out.append("\"/>");
            },
            Node::Symlink(s) => {
                out.append("<symlink name=\"");
                xml_escape_append(out, s.name.as_str());
                out.append("\"/>");
            },
        }
    }

    /// Append the system information header.
    #[verifier::rlimit(60)]
    fn write_system_info(&self, info: &SystemInfo, out: &mut String)
        ensures
            final(out)@ == old(out)@ + spec_xml_system_info(*info, self.config.git_repo),
    {
        out.append("<system_info><hostname>");
        xml_escape_append(out, info.hostname.as_str());
        out.append("</hostname><os>");
        xml_escape_append(out, info.os.as_str());
        out.append("</os><kernel>");
        xml_escape_append(out, info.kernel.as_str());
        out.append("</kernel>");
        match &self.config.git_repo {
            Some(g) => {
                out.append("<git_repository><url>");
                xml_escape_append(out, g.url.as_str());
                out.append("</url><host>");
                match &g.host {
                    crate::git::GitHost::GitHub => xml_escape_append(out, "github.com"),
                    crate::git::GitHost::GitLab => xml_escape_append(out, "gitlab.com"),
                    crate::git::GitHost::Bitbucket => xml_escape_append(out, "bitbucket.org"),
                    crate::git::GitHost::Other(name) => xml_escape_append(out, name.as_str()),
                }
                out.append("</host><owner>");
                xml_escape_append(out, g.owner.as_str());
                out.append("</owner><name>");
                xml_escape_append(out, g.name.as_str());
                out.append("</name></git_repository>");
            },
            None => {},
        }
        out.append("</system_info>");
    }

    /// Serialize a scanned tree into a complete XML document.
    pub fn write(&self, root_node: &DirectoryNode, info: &SystemInfo, timestamp: &str) -> (r:
        String)
        ensures
            r@ == spec_xml_document(self.config, root_node@, *info, timestamp@),
    {
        let mut out = "<?xml version=\"1.0\" encoding=\"UTF-8\"?>".to_owned();
        out.append("<directory_scan timestamp=\"");
        xml_escape_append(&mut out, timestamp);
        out.append("\">");
        self.write_system_info(info, &mut out);
        out.append("<overview>");
        self.write_overview_of(root_node, &mut out);
        out.append("</overview>");
        self.write_directory(root_node, &mut out);
        out.append("</directory_scan>");
        proof {
            assert(out@ =~= spec_xml_document(self.config, root_node@, *info, timestamp@));
        }
        out
    }

    /// Append the overview of the root directory.
    fn write_overview_of(&self, dir: &DirectoryNode, out: &mut String)
        ensures
            final(out)@ == old(out)@ + spec_xml_overview_node(dir@),
        decreases *dir,
    {
        out.append("<directory name=\"");
        xml_escape_append(out, dir.name.as_str());
        out.append("\">");
        let ghost base = out@;
        let mut i: usize = 0;
        proof {
            assert(dir.contents@.subrange(0, 0) =~= Seq::<Node>::empty());
            assert(nodes_view(dir.contents@.subrange(0, 0)) =~= Seq::<NodeView>::empty());
            assert(out@ =~= base + spec_xml_overview_nodes(
                nodes_view(dir.contents@.subrange(0, 0)),
            ));
        }
        while i < dir.contents.len()
            invariant
                i <= dir.contents@.len(),
                out@ =~= base + spec_xml_overview_nodes(
                    nodes_view(dir.contents@.subrange(0, i as int)),
                ),
            decreases dir.contents@.len() - i,
        {
            proof {
                assert(decreases_to!(*dir => dir.contents));
                assert(decreases_to!(dir.contents => dir.contents@[i as int]));
            }
            self.write_node_overview(&dir.contents[i], out);
            i = i + 1;
            proof {
                assert(dir.contents@.subrange(0, i as int) =~= dir.contents@.subrange(
                    0,
                    i as int - 1,
                ).push(dir.contents@[i as int - 1]));
                crate::types::lemma_nodes_view_push(
                    dir.contents@.subrange(0, i as int - 1),
                    dir.contents@[i as int - 1],
                );
                assert(nodes_view(dir.contents@.subrange(0, i as int)) =~= nodes_view(
                    dir.contents@.subrange(0, i as int - 1),
                ) + seq![dir.contents@[i as int - 1]@]);
                lemma_xml_overview_nodes_snoc(
                    nodes_view(dir.contents@.subrange(0, i as int - 1)),
                    dir.contents@[i as int - 1]@,
                );
                assert(out@ =~= base + spec_xml_overview_nodes(
                    nodes_view(dir.contents@.subrange(0, i as int)),
                ));
            }
        }
        proof {
            assert(dir.contents@.subrange(0, dir.contents@.len() as int) =~= dir.contents@);
        }
        out.append("</directory>");
        proof {
            assert(out@ =~= old(out)@ + spec_xml_overview_node(dir@));
        }
    }
}

/// Index of the last occurrence of `c` in `s`; `-1` when `c` does not
/// occur.
pub open spec fn last_index_of(s: Seq<char>, c: char) -> int
    decreases s,
{
    if s.len() == 0 {
        -1
    } else if s.last() == c {
        s.len() - 1
    } else {
        last_index_of(s.drop_last(), c)
    }
}

/// A position at which `c` occurs, after which it does not — or no
/// occurrence at all — determines the last occurrence.
proof fn lemma_last_index_at(s: Seq<char>, c: char, k: int)
    requires
        -1 <= k < s.len(),
        k >= 0 ==> s[k] == c,
        forall|j: int| k < j < s.len() ==> s[j] != c,
    ensures
        last_index_of(s, c) == k,
    decreases s,
{
    if s.len() > 0 && k < s.len() - 1 {
        lemma_last_index_at(s.drop_last(), c, k);
    }
}

/// The display name of a file in the text document: its path, with the
/// writer's root prefix stripped when present.
pub open spec fn spec_display_name(path: Seq<char>, root: Seq<char>) -> Seq<char> {
    if root.len() == 0 {
        path
    } else if crate::utils::starts_with(path, root + "/"@) {
        path.skip(root.len() as int + 1)
    } else {
        path
    }
}

/// The extension of a path: what follows the last dot of its base name,
/// unless that dot starts the name.
pub open spec fn spec_extension(p: Seq<char>) -> Seq<char> {
    let name = p.skip(last_index_of(p, '/') + 1);
    let d = last_index_of(name, '.');
    if d > 0 {
        name.skip(d + 1)
    } else {
        Seq::empty()
    }
}

/// The extension of a path.
fn extension_of(path: &str) -> (r: String)
    ensures
        r@ == spec_extension(path@),
{
    let v = crate::utils::chars_of(path);
    let mut slash: usize = v.len();
    while slash > 0
        invariant
            slash <= v@.len(),
            v@ == path@,
            forall|j: int| slash <= j < v@.len() ==> v@[j] != '/',
        ensures
            slash <= v@.len(),
            v@ == path@,
            forall|j: int| slash <= j < v@.len() ==> v@[j] != '/',
            slash > 0 ==> v@[slash - 1] == '/',
        decreases slash,
    {
        if v[slash - 1] == '/' {
            break;
        }
        slash = slash - 1;
    }
    proof {
        lemma_last_index_at(path@, '/', slash - 1);
    }
    let ns: usize = slash;
    let ghost name = path@.skip(ns as int);
    let mut dot: usize = v.len();
    while dot > ns
        invariant
            ns <= dot <= v@.len(),
            v@ == path@,
            forall|j: int| dot <= j < v@.len() ==> v@[j] != '.',
        ensures
            ns <= dot <= v@.len(),
            v@ == path@,
            forall|j: int| dot <= j < v@.len() ==> v@[j] != '.',
            dot > ns ==> v@[dot - 1] == '.',
        decreases dot,
    {
        if v[dot - 1] == '.' {
            break;
        }
        dot = dot - 1;
    }
    proof {
        assert(forall|j: int| 0 <= j < name.len() ==> name[j] == path@[ns + j]);
        if dot > ns {
            lemma_last_index_at(name, '.', dot - 1 - ns);
        } else {
            lemma_last_index_at(name, '.', -1);
        }
    }
    if dot > ns && dot - 1 > ns {
        let r = crate::utils::slice_string(&v, dot, v.len());
        proof {
            assert(r@ =~= name.skip(last_index_of(name, '.') + 1));
        }
        r
    } else {
        String::new()
    }
}

/// The metadata lines of the text document.
pub open spec fn spec_txt_metadata(m: MetadataView) -> Seq<char> {
    "  Size: "@ + dec_digits(m.size as int) + "\n  Modified: "@ + dec_digits(m.modified as int)
        + "\n  Permissions: "@ + m.permissions + "\n"@
}

/// One node of the text document.  Directories contribute only their
/// contents; a file contributes a banner, its metadata when asked for, and
/// its content in a fenced block; a symlink contributes one line.
pub open spec fn spec_txt_node(n: NodeView, include_meta: bool, root: Seq<char>) -> Seq<char>
    decreases n,
{
    match n {
        NodeView::Directory { contents, .. } => spec_txt_nodes(contents, include_meta, root),
        NodeView::File { path, metadata, content, .. } => match content {
            Some(c) => {
                let disp = spec_display_name(path, root);
                "\n================================================\n"@ + disp
                    + "\n================================================\n\n"@ + (if include_meta {
                    spec_txt_metadata(metadata)
                } else {
                    Seq::<char>::empty()
                }) + "```"@ + spec_extension(disp) + "\n"@ + c + "\n```\n"@
            },
            None => Seq::empty(),
        },
        NodeView::Binary { metadata, .. } => if include_meta {
            spec_txt_metadata(metadata)
        } else {
            Seq::empty()
        },
        NodeView::Symlink { path, metadata, target, .. } => "[S] "@ + path + " -> "@ + target
            + "\n"@ + (if include_meta {
            spec_txt_metadata(metadata)
        } else {
            Seq::<char>::empty()
        }),
    }
}

/// A forest of nodes of the text document, in order.
pub open spec fn spec_txt_nodes(s: Seq<NodeView>, include_meta: bool, root: Seq<char>) -> Seq<
    char,
>
    decreases s,
{
    if s.len() == 0 {
        Seq::empty()
    } else {
        spec_txt_node(s[0], include_meta, root) + spec_txt_nodes(s.drop_first(), include_meta, root)
    }
}

/// The system information lines of the text document.
pub open spec fn spec_txt_system_info(info: SystemInfo) -> Seq<char> {
    "Hostname: "@ + info.hostname@ + "\nOS: "@ + info.os@ + "\nKernel: "@ + info.kernel@ + "\n"@
}

/// The repository lines of the text document.
pub open spec fn spec_txt_repo_info(g: GitRepoInfo) -> Seq<char> {
    "URL: "@ + g.url@ + "\nHost: "@ + spec_host_name(g.host) + "\nOwner: "@ + g.owner@
        + "\nRepository: "@ + g.name@ + "\n"@
}

/// The whole text document for a scanned tree.
pub open spec fn spec_txt_document(
    cfg: Config,
    root: NodeView,
    root_path: Seq<char>,
    info: SystemInfo,
) -> Seq<char> {
    (if cfg.include_metadata {
        "=================== SYSTEM INFO ===================\n"@ + spec_txt_system_info(info)
            + "\n"@
    } else {
        Seq::<char>::empty()
    }) + (match cfg.git_repo {
        Some(g) => "=================== REPOSITORY ===================\n"@ + spec_txt_repo_info(g)
            + "\n"@,
        None => Seq::<char>::empty(),
    }) + "<codebase name=\""@ + (match root {
        NodeView::Directory { name, .. } => name,
        _ => Seq::<char>::empty(),
    }) + "\">\n"@ + (match root {
        NodeView::Directory { contents, .. } => spec_txt_nodes(
            contents,
            cfg.include_metadata,
            root_path,
        ),
        _ => Seq::<char>::empty(),
    }) + "</codebase>\n"@
}

/// Simple text writer for directory contents.
#[derive(Debug)]
pub struct TxtWriter {
    /// Writer configuration
    pub config: Config,
    /// Prefix stripped from file paths for display
    pub root_node_path: String,
}

impl TxtWriter {
    /// Create a new text writer; no path prefix is stripped.
    pub fn new(config: Config) -> (r: Self)
        ensures
            r.config == config,
            r.root_node_path@ == Seq::<char>::empty(),
    {
        TxtWriter { config, root_node_path: String::new() }
    }

    /// Append the metadata lines of an entry.
    fn write_metadata(&self, metadata: &Metadata, out: &mut String)
        ensures
            final(out)@ == old(out)@ + spec_txt_metadata(metadata@),
    {
        out.append("  Size: ");
        out.append(u64_to_string(metadata.size).as_str());
        out.append("\n  Modified: ");
        out.append(u64_to_string(metadata.modified).as_str());
        out.append("\n  Permissions: ");
        out.append(metadata.permissions.as_str());
        out.append("\n");
    }

    /// Append one node of the text document.
    fn write_node(&self, node: &Node, out: &mut String)
        ensures
            final(out)@ == old(out)@ + spec_txt_node(
                node@,
                self.config.include_metadata,
                self.root_node_path@,
            ),
        decreases *node,
    {
        match node {
            Node::Directory(dir) => {
                proof {
                    assert(decreases_to!(*node => *dir));
                }
                self.write_directory(dir, out);
            },
            Node::File(file) => self.write_file(file, out),
            Node::Binary(binary) => self.write_binary(binary, out),
            Node::Symlink(symlink) => self.write_symlink(symlink, out),
        }
    }

    /// Append the contents of a directory, in order.
    fn write_directory(&self, dir: &DirectoryNode, out: &mut String)
        ensures
            final(out)@ == old(out)@ + spec_txt_node(
                dir@,
                self.config.include_metadata,
                self.root_node_path@,
            ),
        decreases *dir,
    {
        let ghost base = out@;
        let mut i: usize = 0;
        proof {
            assert(dir.contents@.subrange(0, 0) =~= Seq::<Node>::empty());
            assert(nodes_view(dir.contents@.subrange(0, 0)) =~= Seq::<NodeView>::empty());
            assert(out@ =~= base + spec_txt_nodes(
                nodes_view(dir.contents@.subrange(0, 0)),
                self.config.include_metadata,
                self.root_node_path@,
            ));
        }
        while i < dir.contents.len()
            invariant
                i <= dir.contents@.len(),
                out@ =~= base + spec_txt_nodes(
                    nodes_view(dir.contents@.subrange(0, i as int)),
                    self.config.include_metadata,
                    self.root_node_path@,
                ),
            decreases dir.contents@.len() - i,
        {
            proof {
                assert(decreases_to!(*dir => dir.contents));
                assert(decreases_to!(dir.contents => dir.contents@[i as int]));
            }
            self.write_node(&dir.contents[i], out);
            i = i + 1;
            proof {
                assert(dir.contents@.subrange(0, i as int) =~= dir.contents@.subrange(
                    0,
                    i as int - 1,
                ).push(dir.contents@[i as int - 1]));
                crate::types::lemma_nodes_view_push(
                    dir.contents@.subrange(0, i as int - 1),
                    dir.contents@[i as int - 1],
                );
                assert(nodes_view(dir.contents@.subrange(0, i as int)) =~= nodes_view(
                    dir.contents@.subrange(0, i as int - 1),
                ) + seq![dir.contents@[i as int - 1]@]);
                lemma_txt_nodes_snoc(
                    nodes_view(dir.contents@.subrange(0, i as int - 1)),
                    dir.contents@[i as int - 1]@,
                    self.config.include_metadata,
                    self.root_node_path@,
                );
                assert(out@ =~= base + spec_txt_nodes(
                    nodes_view(dir.contents@.subrange(0, i as int)),
                    self.config.include_metadata,
                    self.root_node_path@,
                ));
            }
        }
        proof {
            assert(dir.contents@.subrange(0, dir.contents@.len() as int) =~= dir.contents@);
        }
    }

    /// Append the display name of a file.
    fn display_name(&self, path: &str) -> (r: String)
        ensures
            r@ == spec_display_name(path@, self.root_node_path@),
    {
        if self.root_node_path.as_str().is_empty() {
            return path.to_owned();
        }
        let mut prefix = self.root_node_path.clone();
        prefix.append("/");
        let v = crate::utils::chars_of(path);
        let pv = crate::utils::chars_of(prefix.as_str());
        if crate::utils::vec_starts_with(&v, prefix.as_str()) {
            let r = crate::utils::slice_string(&v, pv.len(), v.len());
            proof {
                reveal_strlit("/");
                assert(pv@.len() == self.root_node_path@.len() + 1);
                assert(r@ =~= path@.skip(self.root_node_path@.len() as int + 1));
            }
            r
        } else {
            path.to_owned()
        }
    }

    /// Append a file with a banner and its content in a fenced block; a
    /// file without content is omitted.
    fn write_file(&self, file: &crate::types::FileNode, out: &mut String)
        ensures
            final(out)@ == old(out)@ + spec_txt_node(
                file@,
                self.config.include_metadata,
                self.root_node_path@,
            ),
    {
        match &file.content {
            Some(content) => {
                let disp = self.display_name(file.path.as_str());
                out.append("\n================================================\n");
                out.append(disp.as_str());
                out.append("\n================================================\n\n");
                if self.config.include_metadata {
                    self.write_metadata(&file.metadata, out);
                }
                out.append("```");
                out.append(extension_of(disp.as_str()).as_str());
                out.append("\n");
                out.append(content.as_str());
                out.append("\n```\n");
            },
            None => {},
        }
    }

    /// Append a binary entry: only its metadata, when asked for.
    fn write_binary(&self, binary: &crate::types::BinaryNode, out: &mut String)
        ensures
            final(out)@ == old(out)@ + spec_txt_node(
                binary@,
                self.config.include_metadata,
                self.root_node_path@,
            ),
    {
        if self.config.include_metadata {
            self.write_metadata(&binary.metadata, out);
        }
    }

    /// Append a symlink line.
    fn write_symlink(&self, symlink: &crate::types::SymlinkNode, out: &mut String)
        ensures
            final(out)@ == old(out)@ + spec_txt_node(
                symlink@,
                self.config.include_metadata,
                self.root_node_path@,
            ),
    {
        out.append("[S] ");
        out.append(symlink.path.as_str());
        out.append(" -> ");
        out.append(symlink.target.as_str());
        out.append("\n");
        if self.config.include_metadata {
            self.write_metadata(&symlink.metadata, out);
        }
    }

    /// Serialize a scanned tree into a complete text document.
    pub fn write(&self, root_node: &DirectoryNode, info: &SystemInfo) -> (r: String)
        ensures
            r@ == spec_txt_document(self.config, root_node@, self.root_node_path@, *info),
    {
        let mut out = String::new();
        if self.config.include_metadata {
            out.append("=================== SYSTEM INFO ===================\n");
            self.write_system_info(info, &mut out);
            out.append("\n");
        }
        match &self.config.git_repo {
            Some(_) => {
                out.append("=================== REPOSITORY ===================\n");
                self.write_repo_info(&mut out);
                out.append("\n");
            },
            None => {},
        }
        out.append("<codebase name=\"");
        out.append(root_node.name.as_str());
        out.append("\">\n");
        self.write_directory(root_node, &mut out);
        out.append("</codebase>\n");
        proof {
            assert(out@ =~= spec_txt_document(
                self.config,
                root_node@,
                self.root_node_path@,
                *info,
            ));
        }
        out
    }

    /// Append the system information lines.
    fn write_system_info(&self, info: &SystemInfo, out: &mut String)
        ensures
            final(out)@ == old(out)@ + spec_txt_system_info(*info),
    {
        out.append("Hostname: ");
        out.append(info.hostname.as_str());
        out.append("\nOS: ");
        out.append(info.os.as_str());
        out.append("\nKernel: ");
        out.append(info.kernel.as_str());
        out.append("\n");
    }

    /// Append the repository lines, when scanning a repository.
    fn write_repo_info(&self, out: &mut String)
        ensures
            final(out)@ == old(out)@ + (match self.config.git_repo {
                Some(g) => spec_txt_repo_info(g),
                None => Seq::<char>::empty(),
            }),
    {
        match &self.config.git_repo {
            Some(g) => {
                out.append("URL: ");
                out.append(g.url.as_str());
                out.append("\nHost: ");
                match &g.host {
                    crate::git::GitHost::GitHub => out.append("github.com"),
                    crate::git::GitHost::GitLab => out.append("gitlab.com"),
                    crate::git::GitHost::Bitbucket => out.append("bitbucket.org"),
                    crate::git::GitHost::Other(name) => out.append(name.as_str()),
                }
                out.append("\nOwner: ");
                out.append(g.owner.as_str());
                out.append("\nRepository: ");
                out.append(g.name.as_str());
                out.append("\n");
            },
            None => {},
        }
    }
}

/// Appending one more text node appends its rendering.
proof fn lemma_txt_nodes_snoc(s: Seq<NodeView>, n: NodeView, include_meta: bool, root: Seq<char>)
    ensures
        spec_txt_nodes(s + seq![n], include_meta, root) =~= spec_txt_nodes(s, include_meta, root)
            + spec_txt_node(n, include_meta, root),
    decreases s,
{
    if s.len() == 0 {
        assert((s + seq![n])[0] == n);
        assert((s + seq![n]).drop_first() =~= Seq::<NodeView>::empty());
        assert(spec_txt_nodes((s + seq![n]).drop_first(), include_meta, root)
            =~= Seq::<char>::empty());
    } else {
        assert((s + seq![n])[0] == s[0]);
        assert((s + seq![n]).drop_first() =~= s.drop_first() + seq![n]);
        lemma_txt_nodes_snoc(s.drop_first(), n, include_meta, root);
    }
}

/// Enum for writer formats.
#[derive(Debug, Clone, Copy, PartialEq, Eq, Structural)]
pub enum FsWriterFormatter {
    /// The XML document writer
    Xml,
    /// The plain text document writer
    Txt,
}

impl Default for FsWriterFormatter {
    /// The default format is plain text.
    fn default() -> (r: Self)
        ensures
            r == FsWriterFormatter::Txt,
    {
        FsWriterFormatter::Txt
    }
}

impl FsWriterFormatter {
    /// Serialize a scanned tree in this format.
    pub fn write(&self, config: Config, root_node: &DirectoryNode, info: &SystemInfo, timestamp:
        &str) -> (r: String)
        ensures
            self is Xml ==> r@ == spec_xml_document(config, root_node@, *info, timestamp@),
            self is Txt ==> r@ == spec_txt_document(
                config,
                root_node@,
                Seq::<char>::empty(),
                *info,
            ),
    {
        match self {
            FsWriterFormatter::Xml => XmlWriter::new(config).write(root_node, info, timestamp),
            FsWriterFormatter::Txt => TxtWriter::new(config).write(root_node, info),
        }
    }
}

/// Appending one more overview node appends its rendering.
proof fn lemma_xml_overview_nodes_snoc(s: Seq<NodeView>, n: NodeView)
    ensures
        spec_xml_overview_nodes(s + seq![n]) =~= spec_xml_overview_nodes(s)
            + spec_xml_overview_node(n),
    decreases s,
{
    if s.len() == 0 {
        assert((s + seq![n])[0] == n);
        assert((s + seq![n]).drop_first() =~= Seq::<NodeView>::empty());
        assert(spec_xml_overview_nodes((s + seq![n]).drop_first()) =~= Seq::<char>::empty());
    } else {
        assert((s + seq![n])[0] == s[0]);
        assert((s + seq![n]).drop_first() =~= s.drop_first() + seq![n]);
        lemma_xml_overview_nodes_snoc(s.drop_first(), n);
    }
}

/// Appending one more node appends its rendering.
proof fn lemma_xml_nodes_snoc(s: Seq<NodeView>, n: NodeView, include_meta: bool)
    ensures
        spec_xml_nodes(s + seq![n], include_meta) =~= spec_xml_nodes(s, include_meta)
            + spec_xml_node(n, include_meta),
    decreases s,
{
    if s.len() == 0 {
        assert((s + seq![n])[0] == n);
        assert((s + seq![n]).drop_first() =~= Seq::<NodeView>::empty());
        assert(spec_xml_nodes((s + seq![n]).drop_first(), include_meta) =~= Seq::<char>::empty());
    } else {
        assert((s + seq![n])[0] == s[0]);
        assert((s + seq![n]).drop_first() =~= s.drop_first() + seq![n]);
        lemma_xml_nodes_snoc(s.drop_first(), n, include_meta);
    }
}

} // verus!
