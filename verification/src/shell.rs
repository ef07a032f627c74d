//! Command lines: taking them apart into words, and mending those that name their program
//! twice or set variables before it.

use vstd::prelude::*;

use crate::envs::EnvList;
use crate::paths::base_name;
use crate::paths::file_name;
use crate::pieces::cut;
use crate::pieces::is_word;
use crate::pieces::joined;
use crate::pieces::law_cut_finds_the_first;
use crate::pieces::law_marked_text_is_replaced;
use crate::pieces::law_nothing_to_replace;
use crate::pieces::law_text_without_the_mark_stays;
use crate::pieces::law_words_are_read;
use crate::pieces::find_char;
use crate::pieces::lemma_char_from;
use crate::pieces::replace;
use crate::pieces::replaced;
use crate::pieces::split_char;
use crate::pieces::split_on;
use crate::pieces::split_once;
use crate::pieces::split_whitespace;
use crate::pieces::words;
use crate::text::copy_texts;
use crate::text::has_prefix;
use crate::text::is_space;
use crate::text::occurs_at;
use crate::text::lemma_texts_push;
use crate::text::starts_with;
use crate::text::str_eq;
use crate::text::texts;
use crate::text::trim;
use crate::text::trimmed;

verus! {

/// What `shell_words::split` makes of a command line; nothing, where a quote is not closed.
pub uninterp spec fn shell_split_of(line: Seq<char>) -> Option<Seq<Seq<char>>>;

/// What `shell_words::join` makes of words.
pub uninterp spec fn shell_join_of(list: Seq<Seq<char>>) -> Seq<char>;

pub open spec fn optional_texts(v: Option<Vec<String>>) -> Option<Seq<Seq<char>>> {
    match v {
        Some(list) => Some(texts(list@)),
        None => None,
    }
}

/// `shell_words::split`: the result is a function of the line alone.
#[verifier::external_body]
pub(crate) fn shell_split(line: &str) -> (r: Option<Vec<String>>)
    ensures
        optional_texts(r) == shell_split_of(line@),
{
    shell_words::split(line).ok()
}

/// `shell_words::join`: the result is a function of the words alone, and splitting it gives
/// the words back.
#[verifier::external_body]
pub(crate) fn shell_join(list: &Vec<String>) -> (r: String)
    ensures
        r@ == shell_join_of(texts(list@)),
        shell_split_of(r@) == Some(texts(list@)),
{
    shell_words::join(list)
}

/// The words of a command line. One with a quote that is not closed is split at white space.
pub open spec fn command_words(line: Seq<char>) -> Seq<Seq<char>> {
    match shell_split_of(line) {
        Some(w) => w,
        None => words(line),
    }
}

pub fn split_command(line: &str) -> (r: Vec<String>)
    ensures
        texts(r@) == command_words(line@),
{
    match shell_split(line) {
        Some(w) => w,
        None => split_whitespace(line),
    }
}

/// The name by which a program goes: the last name of its path.
pub open spec fn program_name(path: Seq<char>) -> Seq<char> {
    match base_name(path) {
        Some(n) => n,
        None => path,
    }
}

fn name_of_program(path: &str) -> (r: String)
    ensures
        r@ == program_name(path@),
{
    match file_name(path) {
        Some(n) => n,
        None => path.to_owned(),
    }
}

/// The first word names the program once more.
pub open spec fn repeats_program(first: Seq<char>, program: Seq<char>) -> bool {
    first == program || first == program_name(program) || program_name(first) == program_name(
        program,
    )
}

/// What an argument with the words `w` comes to: nothing, where it has no word; the words after
/// the first, where the first names the program once more; itself, otherwise.
pub open spec fn kept_of(
    arg: Seq<char>,
    w: Seq<Seq<char>>,
    program: Seq<char>,
) -> Seq<Seq<char>> {
    if w.len() == 0 {
        Seq::empty()
    } else if repeats_program(w[0], program) {
        w.skip(1)
    } else {
        seq![arg]
    }
}

/// An argument and its words.
pub struct SplitArg {
    pub arg: String,
    pub words: Vec<String>,
}

pub open spec fn split_arg_views(args: Seq<SplitArg>) -> Seq<(Seq<char>, Seq<Seq<char>>)> {
    Seq::new(args.len(), |i: int| (args[i].arg@, texts(args[i].words@)))
}

/// What the first `n` arguments come to.
pub open spec fn kept_args(
    args: Seq<(Seq<char>, Seq<Seq<char>>)>,
    program: Seq<char>,
    n: int,
) -> Seq<Seq<char>>
    decreases n,
{
    if n <= 0 {
        Seq::empty()
    } else {
        kept_args(args, program, n - 1) + kept_of(args[n - 1].0, args[n - 1].1, program)
    }
}

/// `extra` begins `args`.
pub open spec fn begins_with(args: Seq<Seq<char>>, extra: Seq<Seq<char>>) -> bool {
    extra.len() <= args.len() && args.take(extra.len() as int) == extra
}

/// The program and arguments that a command comes to, from the words of its program and of its
/// arguments: the words after the program stand first, unless the arguments begin with them
/// anyway.
pub open spec fn mended(
    binary: Seq<char>,
    bin_words: Seq<Seq<char>>,
    args: Seq<(Seq<char>, Seq<Seq<char>>)>,
) -> (Seq<char>, Seq<Seq<char>>) {
    if bin_words.len() == 0 {
        (binary, Seq::new(args.len(), |i: int| args[i].0))
    } else {
        let kept = kept_args(args, bin_words[0], args.len() as int);
        let extra = bin_words.skip(1);
        (
            bin_words[0],
            if begins_with(kept, extra) {
                kept
            } else {
                extra + kept
            },
        )
    }
}

/// A copy of the words from `from` on, put behind `list`.
fn extend_from(list: Vec<String>, more: &Vec<String>, from: usize) -> (r: Vec<String>)
    requires
        from <= more@.len(),
    ensures
        texts(r@) == texts(list@) + texts(more@).skip(from as int),
{
    let ghost base = texts(list@);
    let ghost all = texts(more@);
    let mut r: Vec<String> = list;
    let mut i: usize = from;
    assert(all.subrange(from as int, from as int) =~= Seq::<Seq<char>>::empty());
    assert(base + all.subrange(from as int, from as int) =~= base);
    while i < more.len()
        invariant
            from <= i <= more@.len(),
            all == texts(more@),
            texts(r@) == base + all.subrange(from as int, i as int),
        decreases more@.len() - i,
    {
        let word: String = more[i].clone();
        proof {
            lemma_texts_push(r@, word);
        }
        r.push(word);
        assert(all.subrange(from as int, i + 1) =~= all.subrange(from as int, i as int).push(
            word@,
        ));
        assert(texts(r@) =~= base + all.subrange(from as int, i + 1));
        i = i + 1;
    }
    assert(all.subrange(from as int, all.len() as int) =~= all.skip(from as int));
    r
}

fn starts_alike(args: &Vec<String>, extra: &Vec<String>, from: usize) -> (r: bool)
    requires
        from <= extra@.len(),
    ensures
        r == begins_with(texts(args@), texts(extra@).skip(from as int)),
{
    let ghost a = texts(args@);
    let ghost e = texts(extra@).skip(from as int);
    let m: usize = extra.len();
    let n: usize = m - from;
    if n > args.len() {
        return false;
    }
    let mut i: usize = 0;
    while i < n
        invariant
            i <= n <= args@.len(),
            from + n == m,
            m == extra@.len(),
            a == texts(args@),
            e == texts(extra@).skip(from as int),
            forall|k: int| 0 <= k < i ==> a[k] == e[k],
        decreases n - i,
    {
        assert(a[i as int] == args@[i as int]@);
        assert(e[i as int] == extra@[from + i]@);
        if !str_eq(&args[i], &extra[from + i]) {
            assert(a.take(n as int)[i as int] != e[i as int]);
            return false;
        }
        i = i + 1;
    }
    assert(a.take(n as int) =~= e);
    true
}

/// `canonicalize_command`, with the words of the program and of each argument given.
pub fn mend_command(binary: String, bin_words: &Vec<String>, args: &Vec<SplitArg>) -> (r: (
    String,
    Vec<String>,
))
    ensures
        (r.0@, texts(r.1@)) == mended(binary@, texts(bin_words@), split_arg_views(args@)),
{
    let ghost all = split_arg_views(args@);
    let ghost bw = texts(bin_words@);
    if bin_words.len() == 0 {
        let mut same: Vec<String> = Vec::new();
        let mut k: usize = 0;
        while k < args.len()
            invariant
                k <= args@.len(),
                all == split_arg_views(args@),
                texts(same@) == Seq::new(k as nat, |j: int| all[j].0),
            decreases args@.len() - k,
        {
            let arg: String = args[k].arg.clone();
            proof {
                lemma_texts_push(same@, arg);
            }
            same.push(arg);
            k = k + 1;
            assert(texts(same@) =~= Seq::new(k as nat, |j: int| all[j].0));
        }
        return (binary, same);
    }
    let program: String = bin_words[0].clone();
    assert(bw[0] == program@);
    let name: String = name_of_program(&program);
    let mut kept: Vec<String> = Vec::new();
    let mut i: usize = 0;
    assert(texts(kept@) =~= Seq::<Seq<char>>::empty());
    while i < args.len()
        invariant
            i <= args@.len(),
            all == split_arg_views(args@),
            name@ == program_name(program@),
            texts(kept@) == kept_args(all, program@, i as int),
        decreases args@.len() - i,
    {
        let ghost w = texts(args@[i as int].words@);
        assert(all[i as int] == (args@[i as int].arg@, w));
        let ghost before = texts(kept@);
        if args[i].words.len() > 0 {
            assert(w[0] == args@[i as int].words@[0]@);
            let first: &String = &args[i].words[0];
            if str_eq(first, &program) || str_eq(first, &name) || str_eq(
                &name_of_program(first),
                &name,
            ) {
                kept = extend_from(kept, &args[i].words, 1);
            } else {
                let arg: String = args[i].arg.clone();
                proof {
                    lemma_texts_push(kept@, arg);
                }
                kept.push(arg);
                assert(texts(kept@) =~= before + seq![arg@]);
            }
        } else {
            assert(before + Seq::<Seq<char>>::empty() =~= before);
        }
        i = i + 1;
    }
    if starts_alike(&kept, bin_words, 1) {
        (program, kept)
    } else {
        let extra: Vec<String> = extend_from(Vec::new(), bin_words, 1);
        assert(texts(extra@) =~= bw.skip(1));
        let list: Vec<String> = extend_from(extra, &kept, 0);
        assert(texts(kept@).skip(0) =~= texts(kept@));
        (program, list)
    }
}

/// The arguments with their words.
pub open spec fn with_words(args: Seq<Seq<char>>) -> Seq<(Seq<char>, Seq<Seq<char>>)> {
    Seq::new(args.len(), |i: int| (args[i], command_words(args[i])))
}

/// The program and the arguments of a command, where words after the program's name belong to
/// the arguments, and where arguments that name the program once more do not.
pub fn canonicalize_command(binary: String, args: Vec<String>) -> (r: (String, Vec<String>))
    ensures
        (r.0@, texts(r.1@)) == mended(
            binary@,
            command_words(binary@),
            with_words(texts(args@)),
        ),
{
    let bin_words: Vec<String> = split_command(&binary);
    let mut split: Vec<SplitArg> = Vec::new();
    let mut i: usize = 0;
    while i < args.len()
        invariant
            i <= args@.len(),
            split_arg_views(split@) == with_words(texts(args@)).take(i as int),
        decreases args@.len() - i,
    {
        let one = SplitArg { arg: args[i].clone(), words: split_command(&args[i]) };
        let ghost before = split@;
        assert(texts(args@)[i as int] == args@[i as int]@);
        split.push(one);
        assert(split_arg_views(split@) =~= split_arg_views(before).push(
            (one.arg@, texts(one.words@)),
        ));
        i = i + 1;
    }
    assert(with_words(texts(args@)).take(args@.len() as int) =~= with_words(texts(args@)));
    mend_command(binary, &bin_words, &split)
}

/// A command whose program is one word, and none of whose arguments is blank or names the
/// program, stays as it is.
pub proof fn law_clean_commands_stay(
    program: Seq<char>,
    args: Seq<(Seq<char>, Seq<Seq<char>>)>,
)
    requires
        forall|i: int|
            0 <= i < args.len() ==> (#[trigger] args[i]).1.len() > 0 && !repeats_program(
                args[i].1[0],
                program,
            ),
    ensures
        mended(program, seq![program], args) == (
            program,
            Seq::new(args.len(), |i: int| args[i].0),
        ),
{
    lemma_all_kept(program, args, args.len() as int);
    let kept = kept_args(args, program, args.len() as int);
    assert(seq![program].skip(1) =~= Seq::<Seq<char>>::empty());
    assert(kept.take(0) =~= Seq::<Seq<char>>::empty());
}

proof fn lemma_all_kept(program: Seq<char>, args: Seq<(Seq<char>, Seq<Seq<char>>)>, n: int)
    requires
        0 <= n <= args.len(),
        forall|i: int|
            0 <= i < args.len() ==> (#[trigger] args[i]).1.len() > 0 && !repeats_program(
                args[i].1[0],
                program,
            ),
    ensures
        kept_args(args, program, n) == Seq::new(n as nat, |i: int| args[i].0),
    decreases n,
{
    if n > 0 {
        lemma_all_kept(program, args, n - 1);
        assert(args[n - 1].1.len() > 0);
        assert(kept_args(args, program, n) =~= Seq::new(n as nat, |i: int| args[i].0));
    } else {
        assert(kept_args(args, program, n) =~= Seq::new(n as nat, |i: int| args[i].0));
    }
}

/// No argument whose first word names the program comes through as it is: what is left of it
/// are the words after that one.
pub proof fn law_program_is_not_doubled(
    binary: Seq<char>,
    program: Seq<char>,
    arg: Seq<char>,
    w: Seq<Seq<char>>,
)
    requires
        w.len() > 0,
        repeats_program(w[0], program),
    ensures
        mended(binary, seq![program], seq![(arg, w)]) == (program, w.skip(1)),
{
    let args = seq![(arg, w)];
    assert(kept_args(args, program, 0) =~= Seq::<Seq<char>>::empty());
    assert(kept_args(args, program, 1) =~= w.skip(1));
    assert(seq![program].skip(1) =~= Seq::<Seq<char>>::empty());
    assert(w.skip(1).take(0) =~= Seq::<Seq<char>>::empty());
}

/// The search paths of the worker itself, which a command may refer to.
pub struct HostPaths {
    pub path: String,
    pub ld_library_path: String,
    pub dyld_library_path: String,
}

/// The value that `name=value` sets, where a search path may be built upon the worker's own.
pub open spec fn set_value(name: Seq<char>, value: Seq<char>, host: HostPaths) -> Seq<char> {
    if name == "PATH"@ {
        replaced(replaced(value, "$PATH"@, host.path@), "${PATH:-}"@, host.path@)
    } else if name == "LD_LIBRARY_PATH"@ {
        replaced(
            replaced(value, "$LD_LIBRARY_PATH"@, host.ld_library_path@),
            "${LD_LIBRARY_PATH:-}"@,
            host.ld_library_path@,
        )
    } else if name == "DYLD_LIBRARY_PATH"@ {
        replaced(
            replaced(value, "$DYLD_LIBRARY_PATH"@, host.dyld_library_path@),
            "${DYLD_LIBRARY_PATH:-}"@,
            host.dyld_library_path@,
        )
    } else {
        value
    }
}

/// A command as it is taken apart: the program, the arguments, and the variables set for it.
pub struct PrefixView {
    pub binary: Seq<char>,
    pub args: Seq<Seq<char>>,
    pub env: Map<Seq<char>, Seq<char>>,
}

/// What one part of a command line adds: a part that exports is passed over, one with an equals
/// sign sets a variable, any other is the command so far, to which the arguments belong.
pub open spec fn take_part(v: PrefixView, part: Seq<char>, host: HostPaths) -> PrefixView {
    if part.len() == 0 || has_prefix(part, "export "@) {
        v
    } else {
        match cut(part, '=') {
            Some(p) => PrefixView {
                env: v.env.insert(trimmed(p.0), set_value(trimmed(p.0), trimmed(p.1), host)),
                ..v
            },
            None => if words(part).len() > 0 {
                PrefixView { binary: words(part)[0], args: words(part).skip(1) + v.args, ..v }
            } else {
                v
            },
        }
    }
}

/// What the first `n` parts come to.
pub open spec fn take_parts(
    v: PrefixView,
    parts: Seq<Seq<char>>,
    n: int,
    host: HostPaths,
) -> PrefixView
    decreases n,
{
    if n <= 0 {
        v
    } else {
        take_part(take_parts(v, parts, n - 1, host), trimmed(parts[n - 1]), host)
    }
}

/// What a command with variables and other commands before it comes to.
pub open spec fn prefix_command(
    binary: Seq<char>,
    args: Seq<Seq<char>>,
    host: HostPaths,
) -> PrefixView {
    let plain = PrefixView { binary, args, env: Map::empty() };
    if binary.contains(';') {
        let parts = split_on(binary, ';');
        take_parts(plain, parts, parts.len() as int, host)
    } else {
        plain
    }
}

/// The program, the arguments and the variables of a command.
pub struct PrefixedCommand {
    pub binary: String,
    pub args: Vec<String>,
    pub env: EnvList,
}

impl View for PrefixedCommand {
    type V = PrefixView;

    open spec fn view(&self) -> PrefixView {
        PrefixView { binary: self.binary@, args: texts(self.args@), env: self.env@ }
    }
}

fn value_to_set(name: &str, value: String, host: &HostPaths) -> (r: String)
    ensures
        r@ == set_value(name@, value@, *host),
{
    proof {
        reveal_strlit("$PATH");
        reveal_strlit("${PATH:-}");
        reveal_strlit("$LD_LIBRARY_PATH");
        reveal_strlit("${LD_LIBRARY_PATH:-}");
        reveal_strlit("$DYLD_LIBRARY_PATH");
        reveal_strlit("${DYLD_LIBRARY_PATH:-}");
    }
    if str_eq(name, "PATH") {
        replace(&replace(&value, "$PATH", &host.path), "${PATH:-}", &host.path)
    } else if str_eq(name, "LD_LIBRARY_PATH") {
        replace(
            &replace(&value, "$LD_LIBRARY_PATH", &host.ld_library_path),
            "${LD_LIBRARY_PATH:-}",
            &host.ld_library_path,
        )
    } else if str_eq(name, "DYLD_LIBRARY_PATH") {
        replace(
            &replace(&value, "$DYLD_LIBRARY_PATH", &host.dyld_library_path),
            "${DYLD_LIBRARY_PATH:-}",
            &host.dyld_library_path,
        )
    } else {
        value
    }
}

/// A command line of several parts, such as a wrapper writes it: the parts are separated by
/// semicolons, and the last that is a command is the one to run.
pub fn parse_shell_prefix_command(binary: &str, args: &Vec<String>, host: &HostPaths) -> (r:
    PrefixedCommand)
    ensures
        r@ == prefix_command(binary@, texts(args@), *host),
{
    let mut command = PrefixedCommand {
        binary: binary.to_owned(),
        args: copy_texts(args),
        env: EnvList::new(),
    };
    let ghost plain = command@;
    proof {
        lemma_char_from(binary@, ';', 0);
    }
    let found: Option<usize> = find_char(binary, ';');
    if found.is_none() {
        return command;
    }
    assert(binary@[found->0 as int] == ';');
    let pieces: Vec<String> = split_char(binary, ';');
    let ghost all = texts(pieces@);
    let mut i: usize = 0;
    while i < pieces.len()
        invariant
            i <= pieces@.len(),
            all == texts(pieces@),
            command@ == take_parts(plain, all, i as int, *host),
        decreases pieces@.len() - i,
    {
        assert(all[i as int] == pieces@[i as int]@);
        let part: String = trim(&pieces[i]);
        if !part.as_str().is_empty() && !starts_with(&part, "export ") {
            match split_once(&part, '=') {
                Some(p) => {
                    let key: String = trim(&p.0);
                    let value: String = value_to_set(&key, trim(&p.1), host);
                    command = PrefixedCommand {
                        binary: command.binary,
                        args: command.args,
                        env: command.env.with(key, value),
                    };
                },
                None => {
                    let w: Vec<String> = split_whitespace(&part);
                    assert(texts(w@).len() == w@.len());
                    if w.len() > 0 {
                        let head: Vec<String> = extend_from(Vec::new(), &w, 1);
                        assert(texts(head@) =~= words(part@).skip(1));
                        let list: Vec<String> = extend_from(head, &command.args, 0);
                        assert(texts(command.args@).skip(0) =~= texts(command.args@));
                        assert(w@[0]@ == words(part@)[0]);
                        command = PrefixedCommand {
                            binary: w[0].clone(),
                            args: list,
                            env: command.env,
                        };
                    }
                },
            }
        }
        i = i + 1;
    }
    command
}

proof fn lemma_no_dollar(a: Seq<char>, to: Seq<char>, b: Seq<char>)
    requires
        !a.contains('$') && !to.contains('$') && !b.contains('$'),
    ensures
        !(a + to + b).contains('$'),
{
    let s = a + to + b;
    if s.contains('$') {
        let i = choose|i: int| 0 <= i < s.len() && s[i] == '$';
        if i < a.len() {
            assert(a[i] == '$');
        } else if i < a.len() + to.len() {
            assert(to[i - a.len()] == '$');
        } else {
            assert(b[i - a.len() - to.len()] == '$');
        }
    }
}

proof fn lemma_path_is_set(a: Seq<char>, b: Seq<char>, host: HostPaths)
    requires
        !a.contains('$') && !b.contains('$'),
        !host.path@.contains('$'),
    ensures
        set_value("PATH"@, a + "$PATH"@ + b, host) == a + host.path@ + b,
        set_value("PATH"@, a + "${PATH:-}"@ + b, host) == a + host.path@ + b,
{
    reveal_strlit("$PATH");
    reveal_strlit("${PATH:-}");
    let to = host.path@;
    let p = "$PATH"@;
    let q = "${PATH:-}"@;
    law_marked_text_is_replaced(a, p, b, to);
    lemma_no_dollar(a, to, b);
    law_text_without_the_mark_stays(a + to + b, q, to);
    let s = a + q + b;
    assert forall|i: int| !#[trigger] occurs_at(s, p, i) by {
        if occurs_at(s, p, i) {
            let part = s.subrange(i, i + p.len());
            assert(part[0] == '$' && part[1] == s[i + 1]);
            assert(s[i] == '$');
            if i < a.len() {
                assert(a[i] == '$');
            } else if i >= a.len() + q.len() {
                assert(b[i - a.len() - q.len()] == '$');
            } else {
                assert(q[i - a.len()] == '$');
                assert(i == a.len());
                assert(s[i + 1] == q[1]);
            }
        }
    }
    law_nothing_to_replace(s, p, to);
    law_marked_text_is_replaced(a, q, b, to);
    reveal_strlit("PATH");
    reveal_strlit("LD_LIBRARY_PATH");
    reveal_strlit("DYLD_LIBRARY_PATH");
    assert("PATH"@.len() == 4);
    assert("LD_LIBRARY_PATH"@.len() == 15);
    assert("DYLD_LIBRARY_PATH"@.len() == 17);
}

proof fn lemma_library_path_is_set(a: Seq<char>, b: Seq<char>, host: HostPaths)
    requires
        !a.contains('$') && !b.contains('$'),
        !host.ld_library_path@.contains('$'),
    ensures
        set_value("LD_LIBRARY_PATH"@, a + "$LD_LIBRARY_PATH"@ + b, host) == a + host.ld_library_path@ + b,
        set_value("LD_LIBRARY_PATH"@, a + "${LD_LIBRARY_PATH:-}"@ + b, host) == a + host.ld_library_path@ + b,
{
    reveal_strlit("$LD_LIBRARY_PATH");
    reveal_strlit("${LD_LIBRARY_PATH:-}");
    let to = host.ld_library_path@;
    let p = "$LD_LIBRARY_PATH"@;
    let q = "${LD_LIBRARY_PATH:-}"@;
    law_marked_text_is_replaced(a, p, b, to);
    lemma_no_dollar(a, to, b);
    law_text_without_the_mark_stays(a + to + b, q, to);
    let s = a + q + b;
    assert forall|i: int| !#[trigger] occurs_at(s, p, i) by {
        if occurs_at(s, p, i) {
            let part = s.subrange(i, i + p.len());
            assert(part[0] == '$' && part[1] == s[i + 1]);
            assert(s[i] == '$');
            if i < a.len() {
                assert(a[i] == '$');
            } else if i >= a.len() + q.len() {
                assert(b[i - a.len() - q.len()] == '$');
            } else {
                assert(q[i - a.len()] == '$');
                assert(i == a.len());
                assert(s[i + 1] == q[1]);
            }
        }
    }
    law_nothing_to_replace(s, p, to);
    law_marked_text_is_replaced(a, q, b, to);
    reveal_strlit("PATH");
    reveal_strlit("LD_LIBRARY_PATH");
    reveal_strlit("DYLD_LIBRARY_PATH");
    assert("PATH"@.len() == 4);
    assert("LD_LIBRARY_PATH"@.len() == 15);
    assert("DYLD_LIBRARY_PATH"@.len() == 17);
}

proof fn lemma_other_library_path_is_set(a: Seq<char>, b: Seq<char>, host: HostPaths)
    requires
        !a.contains('$') && !b.contains('$'),
        !host.dyld_library_path@.contains('$'),
    ensures
        set_value("DYLD_LIBRARY_PATH"@, a + "$DYLD_LIBRARY_PATH"@ + b, host) == a + host.dyld_library_path@ + b,
        set_value("DYLD_LIBRARY_PATH"@, a + "${DYLD_LIBRARY_PATH:-}"@ + b, host) == a + host.dyld_library_path@ + b,
{
    reveal_strlit("$DYLD_LIBRARY_PATH");
    reveal_strlit("${DYLD_LIBRARY_PATH:-}");
    let to = host.dyld_library_path@;
    let p = "$DYLD_LIBRARY_PATH"@;
    let q = "${DYLD_LIBRARY_PATH:-}"@;
    law_marked_text_is_replaced(a, p, b, to);
    lemma_no_dollar(a, to, b);
    law_text_without_the_mark_stays(a + to + b, q, to);
    let s = a + q + b;
    assert forall|i: int| !#[trigger] occurs_at(s, p, i) by {
        if occurs_at(s, p, i) {
            let part = s.subrange(i, i + p.len());
            assert(part[0] == '$' && part[1] == s[i + 1]);
            assert(s[i] == '$');
            if i < a.len() {
                assert(a[i] == '$');
            } else if i >= a.len() + q.len() {
                assert(b[i - a.len() - q.len()] == '$');
            } else {
                assert(q[i - a.len()] == '$');
                assert(i == a.len());
                assert(s[i + 1] == q[1]);
            }
        }
    }
    law_nothing_to_replace(s, p, to);
    law_marked_text_is_replaced(a, q, b, to);
    reveal_strlit("PATH");
    reveal_strlit("LD_LIBRARY_PATH");
    reveal_strlit("DYLD_LIBRARY_PATH");
    assert("PATH"@.len() == 4);
    assert("LD_LIBRARY_PATH"@.len() == 15);
    assert("DYLD_LIBRARY_PATH"@.len() == 17);
}

/// A search path that a command builds upon the worker's own holds the worker's in that place: each
/// its own, in either way of writing it. Any other variable is set to what is written.
pub proof fn law_search_paths_are_built_upon(
    a: Seq<char>,
    b: Seq<char>,
    name: Seq<char>,
    host: HostPaths,
)
    requires
        !a.contains('$') && !b.contains('$'),
        !host.path@.contains('$') && !host.ld_library_path@.contains('$')
            && !host.dyld_library_path@.contains('$'),
    ensures
        set_value("PATH"@, a + "$PATH"@ + b, host) == a + host.path@ + b,
        set_value("PATH"@, a + "${PATH:-}"@ + b, host) == a + host.path@ + b,
        set_value("LD_LIBRARY_PATH"@, a + "$LD_LIBRARY_PATH"@ + b, host) == a
            + host.ld_library_path@ + b,
        set_value("LD_LIBRARY_PATH"@, a + "${LD_LIBRARY_PATH:-}"@ + b, host) == a
            + host.ld_library_path@ + b,
        set_value("DYLD_LIBRARY_PATH"@, a + "$DYLD_LIBRARY_PATH"@ + b, host) == a
            + host.dyld_library_path@ + b,
        set_value("DYLD_LIBRARY_PATH"@, a + "${DYLD_LIBRARY_PATH:-}"@ + b, host) == a
            + host.dyld_library_path@ + b,
        set_value(name, a, host) == a,
{
    lemma_path_is_set(a, b, host);
    lemma_library_path_is_set(a, b, host);
    lemma_other_library_path_is_set(a, b, host);
    reveal_strlit("$PATH");
    reveal_strlit("${PATH:-}");
    reveal_strlit("$LD_LIBRARY_PATH");
    reveal_strlit("${LD_LIBRARY_PATH:-}");
    reveal_strlit("$DYLD_LIBRARY_PATH");
    reveal_strlit("${DYLD_LIBRARY_PATH:-}");
    law_text_without_the_mark_stays(a, "$PATH"@, host.path@);
    law_text_without_the_mark_stays(a, "${PATH:-}"@, host.path@);
    law_text_without_the_mark_stays(a, "$LD_LIBRARY_PATH"@, host.ld_library_path@);
    law_text_without_the_mark_stays(a, "${LD_LIBRARY_PATH:-}"@, host.ld_library_path@);
    law_text_without_the_mark_stays(a, "$DYLD_LIBRARY_PATH"@, host.dyld_library_path@);
    law_text_without_the_mark_stays(a, "${DYLD_LIBRARY_PATH:-}"@, host.dyld_library_path@);
}

/// A part of a command line: a word without a semicolon and without an equals sign.
pub open spec fn plain_word(w: Seq<char>) -> bool {
    is_word(w) && !w.contains(';') && !w.contains('=')
}

proof fn lemma_joined_words(w: Seq<Seq<char>>)
    requires
        w.len() > 0,
        forall|i: int| 0 <= i < w.len() ==> plain_word(#[trigger] w[i]),
    ensures
        ({
            let s = joined(w, seq![' ']);
            &&& s.len() > 0 && !is_space(s[0]) && !is_space(s.last())
            &&& !s.contains(';') && !s.contains('=')
            &&& words(s) == w
            &&& s[0] == w[0][0]
            &&& w.len() > 1 ==> s.len() > w[0].len() && s[w[0].len() as int] == ' '
            &&& w.len() == 1 ==> s.len() == w[0].len()
            &&& s.take(w[0].len() as int) == w[0]
        }),
    decreases w.len(),
{
    let s = joined(w, seq![' ']);
    assert forall|i: int| 0 <= i < w.len() implies is_word(#[trigger] w[i]) by {
        assert(plain_word(w[i]));
    }
    law_words_are_read(w);
    assert(plain_word(w[0]) && plain_word(w[w.len() - 1]));
    if w.len() == 1 {
        assert(s == w[0]);
        assert(s.take(w[0].len() as int) =~= w[0]);
    } else {
        let front = w.drop_last();
        assert forall|i: int| 0 <= i < front.len() implies plain_word(#[trigger] front[i]) by {
            assert(front[i] == w[i]);
        }
        lemma_joined_words(front);
        let t = joined(front, seq![' ']);
        let last = w.last();
        assert(s =~= t + seq![' '] + last);
        assert(front[0] == w[0]);
        assert(s.take(w[0].len() as int) =~= t.take(w[0].len() as int));
        if s.contains(';') {
            let i = choose|i: int| 0 <= i < s.len() && s[i] == ';';
            if i < t.len() {
                assert(t[i] == ';');
            } else if i > t.len() {
                assert(last[i - t.len() - 1] == ';');
            }
        }
        if s.contains('=') {
            let i = choose|i: int| 0 <= i < s.len() && s[i] == '=';
            if i < t.len() {
                assert(t[i] == '=');
            } else if i > t.len() {
                assert(last[i - t.len() - 1] == '=');
            }
        }
    }
}

proof fn lemma_no_export(s: Seq<char>, first: Seq<char>)
    requires
        first.len() > 0 && first != "export"@,
        first.len() <= s.len() && s.take(first.len() as int) == first,
        !first.contains(' '),
        s.len() == first.len() || s[first.len() as int] == ' ' || s[first.len() as int] == '=',
    ensures
        !has_prefix(s, "export "@),
{
    reveal_strlit("export ");
    reveal_strlit("export");
    if has_prefix(s, "export "@) {
        let p = s.subrange(0, 7);
        assert(p == "export "@);
        assert(s[6] == p[6] && p[6] == ' ');
        if first.len() > 6 {
            assert(s.take(first.len() as int)[6] == ' ');
            assert(first.contains(' '));
        } else if first.len() == 6 {
            assert(first =~= "export"@) by {
                assert forall|i: int| 0 <= i < 6 implies first[i] == "export"@[i] by {
                    assert(s.take(6)[i] == p[i]);
                }
            }
        } else {
            let k = first.len() as int;
            assert(s[k] == p[k]);
            assert(p[k] != ' ' && p[k] != '=');
        }
    }
}

/// A command line that sets a variable before its command runs the command, with its arguments
/// before those given beside it, and with the variable set.
pub proof fn law_commands_run_with_their_variables(
    name: Seq<char>,
    value: Seq<char>,
    w: Seq<Seq<char>>,
    args: Seq<Seq<char>>,
    host: HostPaths,
)
    requires
        plain_word(name) && is_word(value) && !value.contains(';') && !value.contains('$'),
        name != "export"@,
        w.len() > 0 && w[0] != "export"@,
        forall|i: int| 0 <= i < w.len() ==> plain_word(#[trigger] w[i]),
    ensures
        ({
            let line = name + seq!['='] + value + seq![';', ' '] + joined(w, seq![' ']);
            let c = prefix_command(line, args, host);
            &&& c.binary == w[0]
            &&& c.args == w.skip(1) + args
            &&& c.env == Map::<Seq<char>, Seq<char>>::empty().insert(name, value)
        }),
{
    let set = name + seq!['='] + value;
    let run = joined(w, seq![' ']);
    let second = seq![' '] + run;
    let line = name + seq!['='] + value + seq![';', ' '] + run;
    lemma_joined_words(w);
    assert(!set.contains(';')) by {
        if set.contains(';') {
            let i = choose|i: int| 0 <= i < set.len() && set[i] == ';';
            if i < name.len() {
                assert(name[i] == ';');
            } else if i > name.len() {
                assert(value[i - name.len() - 1] == ';');
            }
        }
    }
    assert(!second.contains(';')) by {
        if second.contains(';') {
            let i = choose|i: int| 0 <= i < second.len() && second[i] == ';';
            assert(run[i - 1] == ';');
        }
    }
    assert(line =~= set.push(';') + second);
    assert(line[set.len() as int] == ';');
    crate::pieces::law_split_of_one_piece(set, ';');
    crate::pieces::law_split_at_the_end(set, ';', second);
    let parts = seq![set].push(second);
    let plain = PrefixView { binary: line, args, env: Map::empty() };
    // The first part sets the variable.
    assert(is_word(name) && is_word(value));
    assert(set[0] == name[0] && set.last() == value.last());
    assert(!is_space(name[0]) && !is_space(value[value.len() - 1]));
    crate::text::lemma_trimmed_stays(set);
    assert(set =~= name.push('=') + value);
    law_cut_finds_the_first(name, '=', value);
    assert(!is_space(name[name.len() - 1]) && !is_space(value[0]));
    crate::text::lemma_trimmed_stays(name);
    crate::text::lemma_trimmed_stays(value);
    assert(set.take(name.len() as int) =~= name);
    assert(!name.contains(' ')) by {
        if name.contains(' ') {
            let i = choose|i: int| 0 <= i < name.len() && name[i] == ' ';
            assert(!is_space(name[i]));
        }
    }
    lemma_no_export(set, name);
    lemma_plain_value_is_set(name, value, host);
    let one = take_parts(plain, parts, 1, host);
    assert(parts[0] == set);
    assert(take_parts(plain, parts, 0, host) == plain);
    assert(one == PrefixView { env: plain.env.insert(name, value), ..plain });
    // The second part is the command.
    assert(parts[1] == second);
    lemma_trimmed_run(run);
    assert(trimmed(second) == run);
    assert(plain_word(w[0]));
    assert(!w[0].contains(' ')) by {
        if w[0].contains(' ') {
            let i = choose|i: int| 0 <= i < w[0].len() && w[0][i] == ' ';
            assert(!is_space(w[0][i]));
        }
    }
    lemma_no_export(run, w[0]);
    law_cut_finds_the_first(run, '=', run);
    assert(take_parts(plain, parts, 2, host) == take_part(one, run, host));
    assert(parts.len() == 2);
}

proof fn lemma_trimmed_run(run: Seq<char>)
    requires
        run.len() > 0 && !is_space(run[0]) && !is_space(run.last()),
    ensures
        trimmed(seq![' '] + run) == run,
{
    let s = seq![' '] + run;
    assert(s.skip(1) =~= run);
    assert(s.drop_first() =~= run);
    assert(is_space(' '));
    assert(s[0] == ' ');
    crate::text::lemma_trimmed_stays(run);
}

proof fn lemma_plain_value_is_set(name: Seq<char>, value: Seq<char>, host: HostPaths)
    requires
        !value.contains('$'),
    ensures
        set_value(name, value, host) == value,
{
    reveal_strlit("$PATH");
    reveal_strlit("${PATH:-}");
    reveal_strlit("$LD_LIBRARY_PATH");
    reveal_strlit("${LD_LIBRARY_PATH:-}");
    reveal_strlit("$DYLD_LIBRARY_PATH");
    reveal_strlit("${DYLD_LIBRARY_PATH:-}");
    law_text_without_the_mark_stays(value, "$PATH"@, host.path@);
    law_text_without_the_mark_stays(value, "${PATH:-}"@, host.path@);
    law_text_without_the_mark_stays(value, "$LD_LIBRARY_PATH"@, host.ld_library_path@);
    law_text_without_the_mark_stays(value, "${LD_LIBRARY_PATH:-}"@, host.ld_library_path@);
    law_text_without_the_mark_stays(value, "$DYLD_LIBRARY_PATH"@, host.dyld_library_path@);
    law_text_without_the_mark_stays(value, "${DYLD_LIBRARY_PATH:-}"@, host.dyld_library_path@);
}

/// A command line of one part is run as it is.
pub proof fn law_single_commands_stay(binary: Seq<char>, args: Seq<Seq<char>>, host: HostPaths)
    requires
        !binary.contains(';'),
    ensures
        prefix_command(binary, args, host).binary == binary,
        prefix_command(binary, args, host).args == args,
        prefix_command(binary, args, host).env == Map::<Seq<char>, Seq<char>>::empty(),
{
}

/// A program goes by the name of its file: it is taken for the same whatever directory it is named
/// with, and one of another name is not.
pub proof fn law_programs_go_by_their_name(
    a: Seq<char>,
    b: Seq<char>,
    name: Seq<char>,
    other: Seq<char>,
)
    requires
        crate::paths::plain_name(name) && crate::paths::plain_name(other),
    ensures
        repeats_program(crate::paths::path_join(a, name), crate::paths::path_join(b, name)),
        repeats_program(name, crate::paths::path_join(b, name)),
        repeats_program(crate::paths::path_join(a, name), name),
        name != other ==> !repeats_program(other, crate::paths::path_join(b, name)),
{
    crate::paths::law_joined_names_lie_in_the_directory(a, name);
    crate::paths::law_joined_names_lie_in_the_directory(b, name);
    let none = Seq::<char>::empty();
    crate::paths::law_joined_names_lie_in_the_directory(none, name);
    crate::paths::law_joined_names_lie_in_the_directory(none, other);
    assert(name[0] != '/' && other[0] != '/');
    assert(crate::paths::path_join(none, name) =~= name);
    assert(crate::paths::path_join(none, other) =~= other);
}

/// The words behind the program in its own text stand before the arguments; they are not repeated
/// where the arguments begin with them.
pub proof fn law_words_behind_the_program_come_first(
    binary: Seq<char>,
    program: Seq<char>,
    extra: Seq<Seq<char>>,
    args: Seq<(Seq<char>, Seq<Seq<char>>)>,
)
    requires
        forall|i: int|
            0 <= i < args.len() ==> (#[trigger] args[i]).1.len() > 0 && !repeats_program(
                args[i].1[0],
                program,
            ),
    ensures
        ({
            let given = Seq::new(args.len(), |i: int| args[i].0);
            let m = mended(binary, seq![program] + extra, args);
            &&& m.0 == program
            &&& begins_with(given, extra) ==> m.1 == given
            &&& !begins_with(given, extra) ==> m.1 == extra + given
        }),
{
    lemma_all_kept(program, args, args.len() as int);
    assert((seq![program] + extra)[0] == program);
    assert((seq![program] + extra).skip(1) =~= extra);
}

} // verus!
