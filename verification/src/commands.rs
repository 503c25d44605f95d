//! The `qm` command lines that build templates and VMs, the shell-style
//! quoting used to show them, and the rule that decides when a failed
//! `qm disk import` is retried in its legacy spelling.

use vstd::prelude::*;
use vstd::string::*;
use crate::pvesh::string_views;
use crate::text::{
    chars_of, concat2, contains, decimal, decimal_string, find_in_range, is_whitespace, is_ws,
    owned, push_char, push_decimal, same_text, is_ascii_text, lower_seq,
};

verus! {

// ---------------------------------------------------------------------------
// Command lines
// ---------------------------------------------------------------------------

/// `qm create`: a VM shell with OVMF, secure boot keys, virtio and a serial
/// console, ready to receive an imported disk.
pub fn create_vm_shell(
    vmid: u32,
    name: &str,
    storage: &str,
    bridge: &str,
    memory_mb: u32,
    cores: u32,
    ostype: &str,
) -> (r: Vec<String>)
    ensures
        string_views(r@) == seq![
            "qm"@,
            "create"@,
            decimal(vmid as nat),
            "--name"@,
            name@,
            "--machine"@,
            "q35"@,
            "--bios"@,
            "ovmf"@,
            "--efidisk0"@,
            storage@ + ":0,efitype=4m,pre-enrolled-keys=1"@,
            "--cpu"@,
            "host"@,
            "--cores"@,
            decimal(cores as nat),
            "--sockets"@,
            "1"@,
            "--memory"@,
            decimal(memory_mb as nat),
            "--net0"@,
            "virtio,bridge="@ + bridge@,
            "--serial0"@,
            "socket"@,
            "--vga"@,
            "serial0"@,
            "--ostype"@,
            ostype@,
            "--scsihw"@,
            "virtio-scsi-pci"@,
            "--agent"@,
            "enabled=1"@,
        ],
{
    let mut r: Vec<String> = Vec::new();
    r.push(owned("qm"));
    r.push(owned("create"));
    r.push(decimal_string(vmid));
    r.push(owned("--name"));
    r.push(owned(name));
    r.push(owned("--machine"));
    r.push(owned("q35"));
    r.push(owned("--bios"));
    r.push(owned("ovmf"));
    r.push(owned("--efidisk0"));
    r.push(concat2(storage, ":0,efitype=4m,pre-enrolled-keys=1"));
    r.push(owned("--cpu"));
    r.push(owned("host"));
    r.push(owned("--cores"));
    r.push(decimal_string(cores));
    r.push(owned("--sockets"));
    r.push(owned("1"));
    r.push(owned("--memory"));
    r.push(decimal_string(memory_mb));
    r.push(owned("--net0"));
    r.push(concat2("virtio,bridge=", bridge));
    r.push(owned("--serial0"));
    r.push(owned("socket"));
    r.push(owned("--vga"));
    r.push(owned("serial0"));
    r.push(owned("--ostype"));
    r.push(owned(ostype));
    r.push(owned("--scsihw"));
    r.push(owned("virtio-scsi-pci"));
    r.push(owned("--agent"));
    r.push(owned("enabled=1"));
    assert(string_views(r@) =~= seq![
        "qm"@,
        "create"@,
        decimal(vmid as nat),
        "--name"@,
        name@,
        "--machine"@,
        "q35"@,
        "--bios"@,
        "ovmf"@,
        "--efidisk0"@,
        storage@ + ":0,efitype=4m,pre-enrolled-keys=1"@,
        "--cpu"@,
        "host"@,
        "--cores"@,
        decimal(cores as nat),
        "--sockets"@,
        "1"@,
        "--memory"@,
        decimal(memory_mb as nat),
        "--net0"@,
        "virtio,bridge="@ + bridge@,
        "--serial0"@,
        "socket"@,
        "--vga"@,
        "serial0"@,
        "--ostype"@,
        ostype@,
        "--scsihw"@,
        "virtio-scsi-pci"@,
        "--agent"@,
        "enabled=1"@,
    ]);
    r
}

/// `qm disk import`: imports a local disk image into the VM's storage
/// (the spelling of PVE 8.0 and later).
pub fn import_disk(vmid: u32, image: &str, storage: &str) -> (r: Vec<String>)
    ensures
        string_views(r@) == seq![
            "qm"@,
            "disk"@,
            "import"@,
            decimal(vmid as nat),
            image@,
            storage@,
        ],
{
    let mut r: Vec<String> = Vec::new();
    r.push(owned("qm"));
    r.push(owned("disk"));
    r.push(owned("import"));
    r.push(decimal_string(vmid));
    r.push(owned(image));
    r.push(owned(storage));
    assert(string_views(r@) =~= seq![
        "qm"@,
        "disk"@,
        "import"@,
        decimal(vmid as nat),
        image@,
        storage@,
    ]);
    r
}

/// `qm importdisk`: the same import in the spelling of PVE 7, kept as an alias through PVE 8.
pub fn import_disk_legacy(vmid: u32, image: &str, storage: &str) -> (r: Vec<String>)
    ensures
        string_views(r@) == seq!["qm"@, "importdisk"@, decimal(vmid as nat), image@, storage@],
{
    let mut r: Vec<String> = Vec::new();
    r.push(owned("qm"));
    r.push(owned("importdisk"));
    r.push(decimal_string(vmid));
    r.push(owned(image));
    r.push(owned(storage));
    assert(string_views(r@) =~= seq![
        "qm"@,
        "importdisk"@,
        decimal(vmid as nat),
        image@,
        storage@,
    ]);
    r
}

/// The name that `qm disk import` gives the imported disk: `vm-<vmid>-disk-1`,
/// since the EFI disk took `disk-0`.
pub open spec fn imported_disk(storage: Seq<char>, vmid: u32) -> Seq<char> {
    storage + ":vm-"@ + decimal(vmid as nat) + "-disk-1"@
}

/// The four `qm` commands that attach the imported disk as `virtio0`, boot from
/// it, add a cloud-init drive and turn the VM into a template, in that order.
pub fn attach_imported_disk_and_finalize_template(vmid: u32, storage: &str) -> (r: Vec<
    Vec<String>,
>)
    ensures
        r@.len() == 4,
        string_views(r@[0]@) == seq![
            "qm"@,
            "set"@,
            decimal(vmid as nat),
            "--virtio0"@,
            imported_disk(storage@, vmid),
        ],
        string_views(r@[1]@) == seq![
            "qm"@,
            "set"@,
            decimal(vmid as nat),
            "--boot"@,
            "order=virtio0"@,
        ],
        string_views(r@[2]@) == seq![
            "qm"@,
            "set"@,
            decimal(vmid as nat),
            "--ide2"@,
            storage@ + ":cloudinit"@,
        ],
        string_views(r@[3]@) == seq!["qm"@, "template"@, decimal(vmid as nat)],
{
    let mut disk = concat2(storage, ":vm-");
    push_decimal(&mut disk, vmid);
    disk.append("-disk-1");
    let mut attach: Vec<String> = Vec::new();
    attach.push(owned("qm"));
    attach.push(owned("set"));
    attach.push(decimal_string(vmid));
    attach.push(owned("--virtio0"));
    attach.push(disk);
    let mut boot: Vec<String> = Vec::new();
    boot.push(owned("qm"));
    boot.push(owned("set"));
    boot.push(decimal_string(vmid));
    boot.push(owned("--boot"));
    boot.push(owned("order=virtio0"));
    let mut cloudinit: Vec<String> = Vec::new();
    cloudinit.push(owned("qm"));
    cloudinit.push(owned("set"));
    cloudinit.push(decimal_string(vmid));
    cloudinit.push(owned("--ide2"));
    cloudinit.push(concat2(storage, ":cloudinit"));
    let mut template: Vec<String> = Vec::new();
    template.push(owned("qm"));
    template.push(owned("template"));
    template.push(decimal_string(vmid));
    assert(string_views(attach@) =~= seq![
        "qm"@,
        "set"@,
        decimal(vmid as nat),
        "--virtio0"@,
        imported_disk(storage@, vmid),
    ]);
    assert(string_views(boot@) =~= seq![
        "qm"@,
        "set"@,
        decimal(vmid as nat),
        "--boot"@,
        "order=virtio0"@,
    ]);
    assert(string_views(cloudinit@) =~= seq![
        "qm"@,
        "set"@,
        decimal(vmid as nat),
        "--ide2"@,
        storage@ + ":cloudinit"@,
    ]);
    assert(string_views(template@) =~= seq!["qm"@, "template"@, decimal(vmid as nat)]);
    let mut r: Vec<Vec<String>> = Vec::new();
    r.push(attach);
    r.push(boot);
    r.push(cloudinit);
    r.push(template);
    r
}

/// `qm clone`: a full clone of the template onto the given storage.
pub fn clone_template(template_id: u32, new_id: u32, name: &str, storage: &str) -> (r: Vec<
    String,
>)
    ensures
        string_views(r@) == seq![
            "qm"@,
            "clone"@,
            decimal(template_id as nat),
            decimal(new_id as nat),
            "--name"@,
            name@,
            "--full"@,
            "--storage"@,
            storage@,
        ],
{
    let mut r: Vec<String> = Vec::new();
    r.push(owned("qm"));
    r.push(owned("clone"));
    r.push(decimal_string(template_id));
    r.push(decimal_string(new_id));
    r.push(owned("--name"));
    r.push(owned(name));
    r.push(owned("--full"));
    r.push(owned("--storage"));
    r.push(owned(storage));
    assert(string_views(r@) =~= seq![
        "qm"@,
        "clone"@,
        decimal(template_id as nat),
        decimal(new_id as nat),
        "--name"@,
        name@,
        "--full"@,
        "--storage"@,
        storage@,
    ]);
    r
}

/// `qm set` on a clone: cores, memory with ballooning off, the cloud-init user
/// snippet, and DHCP on the first interface.
pub fn apply_clone_settings(
    vmid: u32,
    cores: u32,
    memory_mb: u32,
    snippet_storage: &str,
    snippet_filename: &str,
) -> (r: Vec<String>)
    ensures
        string_views(r@) == seq![
            "qm"@,
            "set"@,
            decimal(vmid as nat),
            "--cores"@,
            decimal(cores as nat),
            "--memory"@,
            decimal(memory_mb as nat),
            "--balloon"@,
            "0"@,
            "--cicustom"@,
            "user="@ + snippet_storage@ + ":snippets/"@ + snippet_filename@,
            "--ipconfig0"@,
            "ip=dhcp"@,
        ],
{
    let mut cicustom = concat2("user=", snippet_storage);
    cicustom.append(":snippets/");
    cicustom.append(snippet_filename);
    let mut r: Vec<String> = Vec::new();
    r.push(owned("qm"));
    r.push(owned("set"));
    r.push(decimal_string(vmid));
    r.push(owned("--cores"));
    r.push(decimal_string(cores));
    r.push(owned("--memory"));
    r.push(decimal_string(memory_mb));
    r.push(owned("--balloon"));
    r.push(owned("0"));
    r.push(owned("--cicustom"));
    r.push(cicustom);
    r.push(owned("--ipconfig0"));
    r.push(owned("ip=dhcp"));
    assert(string_views(r@) =~= seq![
        "qm"@,
        "set"@,
        decimal(vmid as nat),
        "--cores"@,
        decimal(cores as nat),
        "--memory"@,
        decimal(memory_mb as nat),
        "--balloon"@,
        "0"@,
        "--cicustom"@,
        "user="@ + snippet_storage@ + ":snippets/"@ + snippet_filename@,
        "--ipconfig0"@,
        "ip=dhcp"@,
    ]);
    r
}

/// `qm resize`: grows the `virtio0` disk to the given number of GB.
pub fn resize_disk(vmid: u32, gb: u32) -> (r: Vec<String>)
    ensures
        string_views(r@) == seq![
            "qm"@,
            "resize"@,
            decimal(vmid as nat),
            "virtio0"@,
            decimal(gb as nat).push('G'),
        ],
{
    let mut size = decimal_string(gb);
    push_char(&mut size, 'G');
    let mut r: Vec<String> = Vec::new();
    r.push(owned("qm"));
    r.push(owned("resize"));
    r.push(decimal_string(vmid));
    r.push(owned("virtio0"));
    r.push(size);
    assert(string_views(r@) =~= seq![
        "qm"@,
        "resize"@,
        decimal(vmid as nat),
        "virtio0"@,
        decimal(gb as nat).push('G'),
    ]);
    r
}

/// `qm start`.
pub fn start_vm(vmid: u32) -> (r: Vec<String>)
    ensures
        string_views(r@) == seq!["qm"@, "start"@, decimal(vmid as nat)],
{
    let mut r: Vec<String> = Vec::new();
    r.push(owned("qm"));
    r.push(owned("start"));
    r.push(decimal_string(vmid));
    assert(string_views(r@) =~= seq!["qm"@, "start"@, decimal(vmid as nat)]);
    r
}

// ---------------------------------------------------------------------------
// Shell-style quoting for showing commands
// ---------------------------------------------------------------------------

/// Characters that make an argument need quotes: white space, the quoting and
/// expansion characters `'`, `"`, `\`, `$`, `` ` ``, and `:`, which storage
/// references such as `local-lvm:cloudinit` hold.
pub open spec fn is_shell_special(c: char) -> bool {
    is_ws(c) || c == '\'' || c == '"' || c == '\\' || c == '$' || c == '`' || c == ':'
}

pub open spec fn needs_quoting(a: Seq<char>) -> bool {
    a.len() == 0 || exists|i: int| 0 <= i < a.len() && is_shell_special(#[trigger] a[i])
}

/// `a` with every `'` written as `'\''`.
pub open spec fn escape_quotes(a: Seq<char>) -> Seq<char>
    decreases a.len(),
{
    if a.len() == 0 {
        Seq::empty()
    } else {
        escape_quotes(a.drop_last()) + if a.last() == '\'' {
            seq!['\'', '\\', '\'', '\'']
        } else {
            seq![a.last()]
        }
    }
}

/// `a` in single quotes.
pub open spec fn quoted_form(a: Seq<char>) -> Seq<char> {
    seq!['\''] + escape_quotes(a) + seq!['\'']
}

/// One argument as shown: in single quotes when it is a name given with
/// `--name`, or is empty, or holds a character of [`is_shell_special`]; as it
/// is otherwise.
pub open spec fn shown_word(a: Seq<char>, after_name: bool) -> Seq<char> {
    if after_name || needs_quoting(a) {
        quoted_form(a)
    } else {
        a
    }
}

/// The arguments as shown, each quoted as [`shown_word`] says.
pub open spec fn shown_words(args: Seq<Seq<char>>) -> Seq<Seq<char>> {
    Seq::new(args.len(), |i: int| shown_word(args[i], i > 0 && args[i - 1] == "--name"@))
}

/// The words joined by single spaces.
pub open spec fn join_words(ws: Seq<Seq<char>>) -> Seq<char>
    decreases ws.len(),
{
    if ws.len() == 0 {
        Seq::empty()
    } else if ws.len() == 1 {
        ws[0]
    } else {
        join_words(ws.drop_last()) + seq![' '] + ws.last()
    }
}

/// Appends `a`, shown as [`shown_word`] says.
fn push_shown(out: &mut String, a: &str, after_name: bool)
    ensures
        final(out)@ == old(out)@ + shown_word(a@, after_name),
{
    let v = chars_of(a);
    let mut special = v.len() == 0;
    let mut i: usize = 0;
    while i < v.len()
        invariant
            i <= v.len(),
            special == (v.len() == 0 || exists|j: int| 0 <= j < i && is_shell_special(#[trigger] v@[j])),
        decreases v.len() - i,
    {
        let c = v[i];
        if is_whitespace(c) || c == '\'' || c == '"' || c == '\\' || c == '$' || c == '`' || c
            == ':' {
            special = true;
        }
        i = i + 1;
    }
    assert(special == needs_quoting(a@));
    if !special && !after_name {
        out.append(a);
        return;
    }
    push_char(out, '\'');
    let ghost start = out@;
    let mut k: usize = 0;
    assert(v@.take(0) =~= Seq::<char>::empty());
    while k < v.len()
        invariant
            k <= v.len(),
            v@ == a@,
            out@ == start + escape_quotes(v@.take(k as int)),
        decreases v.len() - k,
    {
        let c = v[k];
        if c == '\'' {
            push_char(out, '\'');
            push_char(out, '\\');
            push_char(out, '\'');
            push_char(out, '\'');
        } else {
            push_char(out, c);
        }
        assert(v@.take(k + 1).drop_last() =~= v@.take(k as int));
        assert(out@ =~= start + escape_quotes(v@.take(k + 1)));
        k = k + 1;
    }
    push_char(out, '\'');
    assert(v@.take(v.len() as int) =~= v@);
    assert(final(out)@ =~= old(out)@ + shown_word(a@, after_name));
}

/// The command line as it is shown in a dry run (never run): the arguments
/// quoted as [`shown_words`] says, joined by spaces.
pub fn quote_args(args: &Vec<String>) -> (r: String)
    ensures
        r@ == join_words(shown_words(string_views(args@))),
{
    let ghost views = string_views(args@);
    let ghost shown = shown_words(views);
    let mut out = String::new();
    let mut i: usize = 0;
    assert(shown.take(0) =~= Seq::<Seq<char>>::empty());
    while i < args.len()
        invariant
            i <= args.len(),
            views == string_views(args@),
            shown == shown_words(views),
            out@ == join_words(shown.take(i as int)),
        decreases args.len() - i,
    {
        if i > 0 {
            push_char(&mut out, ' ');
        }
        let after_name = i > 0 && same_text(args[i - 1].as_str(), "--name");
        push_shown(&mut out, args[i].as_str(), after_name);
        assert(views[i as int] == args@[i as int]@);
        assert(i > 0 ==> views[i - 1] == args@[i - 1]@);
        assert(shown[i as int] == shown_word(args@[i as int]@, after_name));
        assert(shown.take(i + 1).drop_last() =~= shown.take(i as int));
        if i == 0 {
            assert(out@ =~= join_words(shown.take(1)));
        } else {
            assert(out@ =~= join_words(shown.take(i + 1)));
        }
        i = i + 1;
    }
    assert(shown.take(args.len() as int) =~= shown);
    out
}

// ---------------------------------------------------------------------------
// Reading a shown command line back as a shell does
// ---------------------------------------------------------------------------

/// The characters that a POSIX shell treats as operators or patterns outside
/// quotes and that [`shown_word`] leaves unquoted.
pub open spec fn is_shell_meta(c: char) -> bool {
    ||| c == ';' || c == '&' || c == '|' || c == '<' || c == '>'
    ||| c == '(' || c == ')' || c == '*' || c == '?' || c == '[' || c == ']'
    ||| c == '#' || c == '~' || c == '{' || c == '}'
}

/// Unquoted characters that end a word: blanks, and the newline that ends the command.
pub open spec fn sh_blank(c: char) -> bool {
    c == ' ' || c == '\t' || c == '\n'
}

/// POSIX shell word splitting with quote removal, for a line in which no
/// double quote, `$`, backquote or operator character stands outside single
/// quotes: single quotes keep everything up to the next `'` literally, a
/// backslash outside them takes the next character literally (and with a
/// newline disappears), blanks outside them end a word, and an empty pair of
/// quotes still makes a word. `quoted`: inside single quotes; `in_word`: a word
/// has begun; `cur`: its text so far.
pub open spec fn sh_lex(s: Seq<char>, quoted: bool, in_word: bool, cur: Seq<char>) -> Seq<
    Seq<char>,
>
    decreases s.len(),
{
    if s.len() == 0 {
        if in_word {
            seq![cur]
        } else {
            Seq::empty()
        }
    } else {
        let c = s[0];
        let r = s.drop_first();
        if quoted {
            if c == '\'' {
                sh_lex(r, false, true, cur)
            } else {
                sh_lex(r, true, true, cur.push(c))
            }
        } else if c == '\'' {
            sh_lex(r, true, true, cur)
        } else if c == '\\' && r.len() > 0 {
            if r[0] == '\n' {
                sh_lex(r.drop_first(), false, in_word, cur)
            } else {
                sh_lex(r.drop_first(), false, true, cur.push(r[0]))
            }
        } else if sh_blank(c) {
            if in_word {
                seq![cur] + sh_lex(r, false, false, Seq::empty())
            } else {
                sh_lex(r, false, false, Seq::empty())
            }
        } else {
            sh_lex(r, false, true, cur.push(c))
        }
    }
}

/// The words a shell reads from the line `s`; see [`sh_lex`].
pub open spec fn sh_words(s: Seq<char>) -> Seq<Seq<char>> {
    sh_lex(s, false, false, Seq::empty())
}

/// Inside single quotes, the escaped text of `a` reads back as `a`.
proof fn lemma_lex_escaped(a: Seq<char>, tail: Seq<char>, cur: Seq<char>)
    ensures
        sh_lex(escape_quotes(a) + tail, true, true, cur) == sh_lex(tail, true, true, cur + a),
    decreases a.len(),
{
    if a.len() == 0 {
        assert(escape_quotes(a) + tail =~= tail);
        assert(cur + a =~= cur);
    } else {
        let a1 = a.drop_last();
        let c = a.last();
        let piece = if c == '\'' {
            seq!['\'', '\\', '\'', '\'']
        } else {
            seq![c]
        };
        assert(escape_quotes(a) + tail =~= escape_quotes(a1) + (piece + tail));
        lemma_lex_escaped(a1, piece + tail, cur);
        let cur1 = cur + a1;
        assert(cur1.push(c) =~= cur + a);
        let t0 = piece + tail;
        if c == '\'' {
            let t1 = t0.drop_first();
            let t2 = t1.drop_first().drop_first();
            assert(t0[0] == '\'');
            assert(t1 =~= seq!['\\', '\'', '\''] + tail);
            assert(t1[0] == '\\' && t1.drop_first().len() > 0 && t1.drop_first()[0] == '\'');
            assert(t2 =~= seq!['\''] + tail);
            assert(t2[0] == '\'');
            assert(t2.drop_first() =~= tail);
            assert(sh_lex(t0, true, true, cur1) == sh_lex(t1, false, true, cur1));
            assert(sh_lex(t1, false, true, cur1) == sh_lex(t2, false, true, cur1.push('\'')));
            assert(sh_lex(t2, false, true, cur1.push('\'')) == sh_lex(tail, true, true, cur1.push('\'')));
        } else {
            assert(t0[0] == c);
            assert(t0.drop_first() =~= tail);
        }
    }
}

/// An argument without special characters reads back as itself.
proof fn lemma_lex_plain(a: Seq<char>, tail: Seq<char>, w: bool, cur: Seq<char>)
    requires
        forall|i: int| 0 <= i < a.len() ==> !is_shell_special(#[trigger] a[i]),
    ensures
        sh_lex(a + tail, false, w, cur) == sh_lex(tail, false, w || a.len() > 0, cur + a),
    decreases a.len(),
{
    if a.len() == 0 {
        assert(a + tail =~= tail);
        assert(cur + a =~= cur);
    } else {
        let a1 = a.drop_last();
        let c = a.last();
        assert(!is_shell_special(a[a.len() - 1]));
        assert(a + tail =~= a1 + (seq![c] + tail));
        lemma_lex_plain(a1, seq![c] + tail, w, cur);
        let t0 = seq![c] + tail;
        assert(t0[0] == c);
        assert(t0.drop_first() =~= tail);
        assert((cur + a1).push(c) =~= cur + a);
    }
}

/// `q` is a way [`shown_word`] shows `a`.
pub open spec fn shows(q: Seq<char>, a: Seq<char>) -> bool {
    q == quoted_form(a) || (q == a && !needs_quoting(a))
}

/// One shown argument reads back as the argument, leaving a word open.
proof fn lemma_lex_shown_arg(q: Seq<char>, a: Seq<char>, tail: Seq<char>, w: bool, cur: Seq<char>)
    requires
        shows(q, a),
    ensures
        sh_lex(q + tail, false, w, cur) == sh_lex(tail, false, true, cur + a),
{
    if q == quoted_form(a) {
        let t = seq!['\''] + escape_quotes(a) + seq!['\''] + tail;
        assert(t[0] == '\'');
        assert(t.drop_first() =~= escape_quotes(a) + (seq!['\''] + tail));
        lemma_lex_escaped(a, seq!['\''] + tail, cur);
        let u = seq!['\''] + tail;
        assert(u[0] == '\'');
        assert(u.drop_first() =~= tail);
        assert(q + tail =~= t);
    } else {
        assert forall|i: int| 0 <= i < a.len() implies !is_shell_special(#[trigger] a[i]) by {}
        lemma_lex_plain(a, tail, w, cur);
    }
}

/// The joined shown arguments read back as all but the last argument, with
/// the last one's word still open.
proof fn lemma_lex_joined(qs: Seq<Seq<char>>, ws: Seq<Seq<char>>, tail: Seq<char>)
    requires
        ws.len() > 0,
        qs.len() == ws.len(),
        forall|i: int| 0 <= i < ws.len() ==> shows(#[trigger] qs[i], ws[i]),
    ensures
        sh_lex(join_words(qs) + tail, false, false, Seq::empty()) == ws.drop_last() + sh_lex(
            tail,
            false,
            true,
            ws.last(),
        ),
    decreases ws.len(),
{
    let e = Seq::<char>::empty();
    assert(shows(qs[ws.len() - 1], ws[ws.len() - 1]));
    if ws.len() == 1 {
        assert(join_words(qs) == qs[0]);
        lemma_lex_shown_arg(qs[0], ws[0], tail, false, e);
        assert(e + ws[0] =~= ws[0]);
        assert(ws.drop_last() =~= Seq::<Seq<char>>::empty());
        assert(ws.drop_last() + sh_lex(tail, false, true, ws.last()) =~= sh_lex(
            tail,
            false,
            true,
            ws.last(),
        ));
    } else {
        let ws1 = ws.drop_last();
        let qs1 = qs.drop_last();
        let last = ws.last();
        let q = qs.last();
        assert forall|i: int| 0 <= i < ws1.len() implies shows(#[trigger] qs1[i], ws1[i]) by {
            assert(shows(qs[i], ws[i]));
        }
        let rest = seq![' '] + q + tail;
        assert(join_words(qs) + tail =~= join_words(qs1) + rest);
        lemma_lex_joined(qs1, ws1, rest);
        assert(rest[0] == ' ');
        assert(rest.drop_first() =~= q + tail);
        assert(sh_lex(rest, false, true, ws1.last()) == seq![ws1.last()] + sh_lex(
            q + tail,
            false,
            false,
            e,
        ));
        lemma_lex_shown_arg(q, last, tail, false, e);
        assert(e + last =~= last);
        assert(ws1.drop_last() + (seq![ws1.last()] + sh_lex(tail, false, true, last)) =~= ws.drop_last()
            + sh_lex(tail, false, true, ws.last()));
    }
}

/// A shown command line reads back, by a POSIX shell's word splitting and
/// quote removal, as exactly the arguments it was made from (empty ones
/// included), when no argument holds an operator or pattern character.
pub proof fn lemma_quote_args_splits_back(args: Seq<Seq<char>>)
    requires
        forall|i: int, j: int|
            0 <= i < args.len() && 0 <= j < args[i].len() ==> !is_shell_meta(#[trigger] args[i][j]),
    ensures
        sh_words(join_words(shown_words(args))) == args,
{
    let e = Seq::<char>::empty();
    let qs = shown_words(args);
    if args.len() == 0 {
        assert(qs =~= Seq::<Seq<char>>::empty());
        assert(sh_words(e) =~= args);
    } else {
        assert forall|i: int| 0 <= i < args.len() implies shows(#[trigger] qs[i], args[i]) by {}
        let line = join_words(qs);
        assert(line + e =~= line);
        lemma_lex_joined(qs, args, e);
        assert(sh_lex(e, false, true, args.last()) == seq![args.last()]);
        assert(args.drop_last() + seq![args.last()] =~= args);
    }
}

// ---------------------------------------------------------------------------
// Falling back to the legacy import spelling
// ---------------------------------------------------------------------------

/// `str::to_lowercase`: the lower case of a text by Unicode's rules.
pub uninterp spec fn lowercase(s: Seq<char>) -> Seq<char>;

/// Calls `str::to_lowercase`; its result is named [`lowercase`] of the
/// argument. On ASCII text, Unicode's lower-case mapping turns `A`–`Z` into
/// `a`–`z` and keeps every other character, as `str::to_ascii_lowercase` does;
/// beyond ASCII the result is only named.
#[verifier::external_body]
pub(crate) fn to_lowercase(s: &str) -> (r: String)
    ensures
        r@ == lowercase(s@),
        is_ascii_text(s@) ==> r@ == lower_seq(s@),
{
    s.to_lowercase()
}

/// Whether an error from `qm disk import` reads like a CLI-syntax failure
/// (an unknown subcommand) rather than a real import failure.
pub open spec fn looks_like_unknown_subcommand(error_text: Seq<char>) -> bool {
    names_unknown_subcommand(lowercase(error_text))
}

/// Whether a lower-cased message holds one of the phrases that `qm` prints
/// for an unknown subcommand.
pub open spec fn names_unknown_subcommand(msg: Seq<char>) -> bool {
    ||| contains(msg, "unknown command"@)
    ||| contains(msg, "unknown action"@)
    ||| contains(msg, "400 parameter verification failed"@)
    ||| contains(msg, "no such command"@)
    ||| contains(msg, "usage:"@)
}

/// Whether `text` occurs in `v`.
fn has(v: &Vec<char>, text: &str) -> (r: bool)
    ensures
        r == contains(v@, text@),
{
    let p = chars_of(text);
    assert(v@.subrange(0, v.len() as int) =~= v@);
    find_in_range(v, 0, v.len(), &p).is_some()
}

/// Whether a lower-cased error text names an unknown subcommand: it holds one
/// of the phrases that `qm` prints for a CLI-syntax failure.
pub fn mentions_unknown_subcommand(lowered: &str) -> (r: bool)
    ensures
        r == names_unknown_subcommand(lowered@),
{
    let v = chars_of(lowered);
    has(&v, "unknown command") || has(&v, "unknown action") || has(
        &v,
        "400 parameter verification failed",
    ) || has(&v, "no such command") || has(&v, "usage:")
}

/// Whether a failed `qm disk import` should be retried as `qm importdisk`:
/// only when its error reads like an unknown subcommand, so that real import
/// failures are reported as they are.
pub fn should_retry_legacy_import(error_text: &str) -> (r: bool)
    ensures
        r == looks_like_unknown_subcommand(error_text@),
        is_ascii_text(error_text@) ==> r == names_unknown_subcommand(lower_seq(error_text@)),
{
    let lower = to_lowercase(error_text);
    mentions_unknown_subcommand(lower.as_str())
}

/// What follows the modern `qm disk import`.
pub enum ImportDecision {
    /// It succeeded: the import is done and nothing else runs.
    Done,
    /// It failed as an unknown subcommand: run `qm importdisk` next.
    RetryLegacy,
    /// It failed for a real reason: report that error unchanged, run nothing else.
    Propagate,
}

/// The decision after the modern import, from its error text (`None` when it succeeded).
pub open spec fn import_decision(modern_error: Option<Seq<char>>) -> ImportDecision {
    match modern_error {
        None => ImportDecision::Done,
        Some(e) => if looks_like_unknown_subcommand(e) {
            ImportDecision::RetryLegacy
        } else {
            ImportDecision::Propagate
        },
    }
}

/// What to do after `qm disk import` has run: the step that keeps one binary
/// working on PVE 8 and PVE 9.
pub fn import_after_modern(modern_error: Option<&str>) -> (r: ImportDecision)
    ensures
        r == import_decision(
            match modern_error {
                Some(e) => Some(e@),
                None => None,
            },
        ),
        modern_error is None ==> r is Done,
        modern_error matches Some(e) ==> (r is RetryLegacy <==> looks_like_unknown_subcommand(e@)),
        modern_error matches Some(e) ==> (!looks_like_unknown_subcommand(e@) ==> r is Propagate),
{
    match modern_error {
        None => ImportDecision::Done,
        Some(e) => if should_retry_legacy_import(e) {
            ImportDecision::RetryLegacy
        } else {
            ImportDecision::Propagate
        },
    }
}

// ---------------------------------------------------------------------------
// Running a list of commands in turn
// ---------------------------------------------------------------------------

/// What to do next in a list of commands that run one after another.
pub enum SequenceStep {
    /// Run the command at this index.
    Run(usize),
    /// Every command ran and succeeded.
    Finished,
    /// The last command that ran failed: run nothing more and report it.
    Stop,
}

/// The step after `ran` of `total` commands have run, the last of them with
/// outcome `last_ok` (not looked at before the first).
pub open spec fn sequence_next(total: nat, ran: nat, last_ok: bool) -> SequenceStep {
    if ran > 0 && !last_ok {
        SequenceStep::Stop
    } else if ran < total {
        SequenceStep::Run(ran as usize)
    } else {
        SequenceStep::Finished
    }
}

/// The next step in running `total` commands in turn; see [`sequence_next`].
pub fn sequence_step(total: usize, ran: usize, last_ok: bool) -> (r: SequenceStep)
    ensures
        r == sequence_next(total as nat, ran as nat, last_ok),
{
    if ran > 0 && !last_ok {
        SequenceStep::Stop
    } else if ran < total {
        SequenceStep::Run(ran)
    } else {
        SequenceStep::Finished
    }
}

/// How many of `total` commands run when the `i`-th would end with
/// `outcomes[i]`, stepping by [`sequence_next`] from `ran` commands run, the
/// last with outcome `last_ok`.
pub open spec fn commands_run(total: nat, outcomes: Seq<bool>, ran: nat, last_ok: bool) -> nat
    decreases total - ran,
{
    match sequence_next(total, ran, last_ok) {
        SequenceStep::Run(i) => if ran < total && ran < outcomes.len() {
            commands_run(total, outcomes, ran + 1, outcomes[ran as int])
        } else {
            ran
        },
        _ => ran,
    }
}

/// Commands run in turn stop at the first failure: from the start, the
/// commands that run are the first `k`, where the `k`-th is the first that
/// fails (or `k` is all of them), and each one before the last that ran succeeded.
pub proof fn lemma_sequence_stops_at_first_failure(total: nat, outcomes: Seq<bool>)
    requires
        outcomes.len() == total,
    ensures
        ({
            let k = commands_run(total, outcomes, 0, true);
            &&& k <= total
            &&& forall|i: int| 0 <= i < k - 1 ==> #[trigger] outcomes[i]
            &&& k < total ==> k > 0 && !outcomes[k - 1]
        }),
{
    lemma_commands_run_from(total, outcomes, 0, true);
}

proof fn lemma_commands_run_from(total: nat, outcomes: Seq<bool>, ran: nat, last_ok: bool)
    requires
        outcomes.len() == total,
        ran <= total,
        ran > 0 ==> last_ok == outcomes[ran - 1],
    ensures
        ({
            let k = commands_run(total, outcomes, ran, last_ok);
            &&& ran <= k <= total
            &&& forall|i: int| ran <= i < k - 1 ==> #[trigger] outcomes[i]
            &&& k < total ==> k > 0 && !outcomes[k - 1]
            &&& (ran > 0 && !last_ok ==> k == ran)
        }),
    decreases total - ran,
{
    if !(ran > 0 && !last_ok) && ran < total {
        lemma_commands_run_from(total, outcomes, ran + 1, outcomes[ran as int]);
    }
}

/// A failed `qm disk import` is retried as `qm importdisk` exactly when its
/// lower-cased error text holds one of the five phrases that `qm` prints for
/// an unknown subcommand ("unknown command", "unknown action", "400 parameter
/// verification failed", "no such command", "usage:"); every other failure,
/// however it is worded (a "... failed (status ...): ..." line included), is
/// passed on as it is, and a successful import ends the step.
pub proof fn lemma_legacy_retry_only_on_syntax_errors(e: Seq<char>)
    ensures
        import_decision(None) is Done,
        import_decision(Some(e)) is RetryLegacy <==> ({
            let m = lowercase(e);
            ||| contains(m, "unknown command"@)
            ||| contains(m, "unknown action"@)
            ||| contains(m, "400 parameter verification failed"@)
            ||| contains(m, "no such command"@)
            ||| contains(m, "usage:"@)
        }),
        import_decision(Some(e)) is Propagate <==> !({
            let m = lowercase(e);
            ||| contains(m, "unknown command"@)
            ||| contains(m, "unknown action"@)
            ||| contains(m, "400 parameter verification failed"@)
            ||| contains(m, "no such command"@)
            ||| contains(m, "usage:"@)
        }),
{
}

/// The test on an already lower-cased message holds exactly when the message
/// holds one of the five phrases.
pub proof fn lemma_unknown_subcommand_phrases(m: Seq<char>)
    ensures
        names_unknown_subcommand(m) <==> ({
            ||| contains(m, "unknown command"@)
            ||| contains(m, "unknown action"@)
            ||| contains(m, "400 parameter verification failed"@)
            ||| contains(m, "no such command"@)
            ||| contains(m, "usage:"@)
        }),
{
}

} // verus!
