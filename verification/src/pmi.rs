//! The process management interface: requests of a step's processes and what is to be done
//! about each.

use vstd::prelude::*;

use crate::numbers::decimal;
use crate::numbers::law_read_undoes_decimal;
use crate::numbers::parse_u32;
use crate::numbers::parsed_u32;
use crate::pieces::char_from;
use crate::pieces::cut;
use crate::pieces::find_char;
use crate::pieces::joined;
use crate::pieces::law_split_undoes_join;
use crate::pieces::lemma_char_from;
use crate::pieces::nonempty;
use crate::pieces::split_char;
use crate::pieces::split_on;
use crate::pieces::split_once;
use crate::text::has_text;
use crate::text::is_space;
use crate::text::lemma_texts_push;
use crate::text::lemma_trimmed_stays;
use crate::text::occurs_at;
use crate::text::str_eq;
use crate::text::texts;
use crate::text::trim;
use crate::text::trimmed;

verus! {

/// What a request asks of the server.
pub enum PmiAction {
    /// Answer.
    Reply { text: String },
    /// Tell the controller that the rank has reached the barrier, wait for the release, and
    /// answer.
    Barrier { rank: u32, text: String },
    /// Hand the pair to the controller, and answer.
    Put { rank: u32, key: String, value: String, text: String },
    /// Ask the controller for the value under a request number of its own, and answer with
    /// `get_reply` when the response with that number is there.
    Get { rank: u32, key: String },
}

/// What an action says.
pub enum PmiView {
    Reply(Seq<char>),
    Barrier(u32, Seq<char>),
    Put(u32, Seq<char>, Seq<char>, Seq<char>),
    Get(u32, Seq<char>),
}

impl View for PmiAction {
    type V = PmiView;

    open spec fn view(&self) -> PmiView {
        match *self {
            PmiAction::Reply { text } => PmiView::Reply(text@),
            PmiAction::Barrier { rank, text } => PmiView::Barrier(rank, text@),
            PmiAction::Put { rank, key, value, text } => PmiView::Put(rank, key@, value@, text@),
            PmiAction::Get { rank, key } => PmiView::Get(rank, key@),
        }
    }
}

/// The tokens of a request: it separates them by semicolons, or by blanks where it has no
/// semicolon.
pub open spec fn tokens(req: Seq<char>) -> Seq<Seq<char>> {
    if req.contains(';') {
        split_on(req, ';')
    } else {
        split_on(req, ' ')
    }
}

/// The value that the last token `key=value` for the key gives.
pub open spec fn field_of(t: Seq<Seq<char>>, key: Seq<char>) -> Option<Seq<char>>
    decreases t.len(),
{
    if t.len() == 0 {
        None
    } else {
        match cut(t.last(), '=') {
            Some(p) => if trimmed(p.0) == key {
                Some(trimmed(p.1))
            } else {
                field_of(t.drop_last(), key)
            },
            None => field_of(t.drop_last(), key),
        }
    }
}

/// The rank that a request names; 0, if it names none.
pub open spec fn rank_of(t: Seq<Seq<char>>) -> u32 {
    match field_of(t, "rank"@) {
        Some(v) => match parsed_u32(v) {
            Some(n) => n,
            None => 0,
        },
        None => 0,
    }
}

/// The value of a field, or what stands for it where the request does not give it.
pub open spec fn field_or(t: Seq<Seq<char>>, key: Seq<char>, default: Seq<char>) -> Seq<char> {
    match field_of(t, key) {
        Some(v) => v,
        None => default,
    }
}

/// What is to be done about the command `cmd` of a request with the tokens `t`.
pub open spec fn command_action(cmd: Seq<char>, t: Seq<Seq<char>>) -> PmiView {
    if cmd == "init"@ {
        PmiView::Reply("cmd=response_to_init pmi_version=1 pmi_subversion=1 rc=0\n"@)
    } else if cmd == "init-v1-req"@ {
        PmiView::Reply("cmd=init-v1-req-response;rc=0;pmi_version=2;pmi_subversion=0;\n"@)
    } else if cmd == "get_maxes"@ || cmd == "get-maxes"@ {
        PmiView::Reply(
            "cmd=get_maxes_response kvsname_max=255 keylen_max=255 vallen_max=1024 rc=0\n"@,
        )
    } else if cmd == "get_my_kvsname"@ || cmd == "kvs-get-my-name"@ {
        PmiView::Reply("cmd=get_my_kvsname_response kvsname=veloce_step rc=0\n"@)
    } else if cmd == "get_appnum"@ || cmd == "appnum-get"@ {
        PmiView::Reply("cmd=get_appnum_response appnum=0 rc=0\n"@)
    } else if cmd == "get_universe_size"@ || cmd == "universe-size-get"@ {
        PmiView::Reply("cmd=get_universe_size_response size=1 rc=0\n"@)
    } else if cmd == "commit"@ || cmd == "kvs-commit"@ {
        PmiView::Reply("cmd=commit_response rc=0\n"@)
    } else if cmd == "kvs-fence"@ {
        PmiView::Barrier(rank_of(t), "cmd=kvs-fence-response;rc=0;\n"@)
    } else if cmd == "barrier_in"@ {
        PmiView::Barrier(rank_of(t), "cmd=barrier_out\n"@)
    } else if cmd == "put"@ || cmd == "kvs-put"@ {
        PmiView::Put(
            rank_of(t),
            field_or(t, "key"@, "unknown"@),
            field_or(t, "value"@, ""@),
            "cmd=kvs-put-response;rc=0;\n"@,
        )
    } else if cmd == "get"@ || cmd == "kvs-get"@ {
        PmiView::Get(rank_of(t), field_or(t, "key"@, "unknown"@))
    } else if cmd == "job-disconnect"@ {
        PmiView::Reply("cmd=job-disconnect-response;rc=0;\n"@)
    } else if cmd == "finalize"@ {
        PmiView::Reply("cmd=finalize_response rc=0\n"@)
    } else if cmd == "info"@ {
        PmiView::Reply("cmd=info-response;rc=0;\n"@)
    } else {
        PmiView::Reply("cmd=error rc=1 msg=unknown_cmd\n"@)
    }
}

/// What is to be done about a request.
pub open spec fn request_action(req: Seq<char>) -> PmiView {
    match field_of(tokens(req), "cmd"@) {
        Some(cmd) => command_action(cmd, tokens(req)),
        None => PmiView::Reply("cmd=error rc=1 msg=no_cmd\n"@),
    }
}

fn field(t: &Vec<String>, key: &str) -> (r: Option<String>)
    ensures
        match field_of(texts(t@), key@) {
            Some(v) => r is Some && r->0@ == v,
            None => r is None,
        },
{
    let ghost all = texts(t@);
    let mut j: usize = t.len();
    assert(all.take(all.len() as int) =~= all);
    while 0 < j
        invariant
            j <= t@.len(),
            all == texts(t@),
            field_of(all, key@) == field_of(all.take(j as int), key@),
        decreases j,
    {
        let ghost here = all.take(j as int);
        assert(here.last() == t@[j - 1]@);
        assert(here.drop_last() =~= all.take(j - 1));
        if let Some(p) = split_once(&t[j - 1], '=') {
            if str_eq(&trim(&p.0), key) {
                return Some(trim(&p.1));
            }
        }
        j = j - 1;
    }
    None
}

fn field_with_default(t: &Vec<String>, key: &str, default: &str) -> (r: String)
    ensures
        r@ == field_or(texts(t@), key@, default@),
{
    match field(t, key) {
        Some(v) => v,
        None => default.to_owned(),
    }
}

fn rank(t: &Vec<String>) -> (r: u32)
    ensures
        r == rank_of(texts(t@)),
{
    match field(t, "rank") {
        Some(v) => match parse_u32(&v) {
            Some(n) => n,
            None => 0,
        },
        None => 0,
    }
}

fn reply(text: &str) -> (r: PmiAction)
    ensures
        r@ == PmiView::Reply(text@),
{
    PmiAction::Reply { text: text.to_owned() }
}

fn request_tokens(req: &str) -> (t: Vec<String>)
    ensures
        texts(t@) == tokens(req@),
{
    proof {
        lemma_char_from(req@, ';', 0);
    }
    let found: Option<usize> = find_char(req, ';');
    if found.is_some() {
        assert(req@[found->0 as int] == ';');
        split_char(req, ';')
    } else {
        split_char(req, ' ')
    }
}

pub fn process_pmi_request(req: &str) -> (r: PmiAction)
    ensures
        r@ == request_action(req@),
{
    let t: Vec<String> = request_tokens(req);
    let cmd: String = match field(&t, "cmd") {
        Some(cmd) => cmd,
        None => {
            return reply("cmd=error rc=1 msg=no_cmd\n");
        },
    };
    if str_eq(&cmd, "init") {
        reply("cmd=response_to_init pmi_version=1 pmi_subversion=1 rc=0\n")
    } else if str_eq(&cmd, "init-v1-req") {
        reply("cmd=init-v1-req-response;rc=0;pmi_version=2;pmi_subversion=0;\n")
    } else if str_eq(&cmd, "get_maxes") || str_eq(&cmd, "get-maxes") {
        reply("cmd=get_maxes_response kvsname_max=255 keylen_max=255 vallen_max=1024 rc=0\n")
    } else if str_eq(&cmd, "get_my_kvsname") || str_eq(&cmd, "kvs-get-my-name") {
        reply("cmd=get_my_kvsname_response kvsname=veloce_step rc=0\n")
    } else if str_eq(&cmd, "get_appnum") || str_eq(&cmd, "appnum-get") {
        reply("cmd=get_appnum_response appnum=0 rc=0\n")
    } else if str_eq(&cmd, "get_universe_size") || str_eq(&cmd, "universe-size-get") {
        reply("cmd=get_universe_size_response size=1 rc=0\n")
    } else if str_eq(&cmd, "commit") || str_eq(&cmd, "kvs-commit") {
        reply("cmd=commit_response rc=0\n")
    } else if str_eq(&cmd, "kvs-fence") {
        PmiAction::Barrier { rank: rank(&t), text: "cmd=kvs-fence-response;rc=0;\n".to_owned() }
    } else if str_eq(&cmd, "barrier_in") {
        PmiAction::Barrier { rank: rank(&t), text: "cmd=barrier_out\n".to_owned() }
    } else if str_eq(&cmd, "put") || str_eq(&cmd, "kvs-put") {
        PmiAction::Put {
            rank: rank(&t),
            key: field_with_default(&t, "key", "unknown"),
            value: field_with_default(&t, "value", ""),
            text: "cmd=kvs-put-response;rc=0;\n".to_owned(),
        }
    } else if str_eq(&cmd, "get") || str_eq(&cmd, "kvs-get") {
        PmiAction::Get { rank: rank(&t), key: field_with_default(&t, "key", "unknown") }
    } else if str_eq(&cmd, "job-disconnect") {
        reply("cmd=job-disconnect-response;rc=0;\n")
    } else if str_eq(&cmd, "finalize") {
        reply("cmd=finalize_response rc=0\n")
    } else if str_eq(&cmd, "info") {
        reply("cmd=info-response;rc=0;\n")
    } else {
        reply("cmd=error rc=1 msg=unknown_cmd\n")
    }
}

/// The answer to a get, once its value is known.
pub open spec fn get_answer(value: Option<Seq<char>>) -> Seq<char> {
    "cmd=kvs-get-response;rc=0;value="@ + (match value {
        Some(v) => v,
        None => "unknown"@,
    }) + ";\n"@
}

/// The answer to the get with the number `request_id`, if the response that has arrived is
/// the one to it.
pub fn get_reply(request_id: u64, response_id: u64, value: &Option<String>) -> (r: Option<String>)
    ensures
        r is Some <==> response_id == request_id,
        r is Some ==> r->0@ == get_answer(
            match *value {
                Some(v) => Some(v@),
                None => None,
            },
        ),
{
    if response_id != request_id {
        return None;
    }
    let mut text: String = "cmd=kvs-get-response;rc=0;value=".to_owned();
    match value {
        Some(v) => text.append(v.as_str()),
        None => text.append("unknown"),
    }
    text.append(";\n");
    Some(text)
}

pub open spec fn trimmed_all(p: Seq<Seq<char>>) -> Seq<Seq<char>> {
    Seq::new(p.len(), |i: int| trimmed(p[i]))
}

/// The requests that stand in what a process has sent: its lines, without white space around
/// them and without those that are blank.
pub fn pmi_requests(input: &str) -> (r: Vec<String>)
    ensures
        texts(r@) == nonempty(trimmed_all(split_on(input@, '\n'))),
        texts(r@) == requests_in(input@),
{
    let rows: Vec<String> = split_char(input, '\n');
    let ghost all = trimmed_all(texts(rows@));
    let mut r: Vec<String> = Vec::new();
    let mut i: usize = 0;
    assert(all.take(0) =~= Seq::<Seq<char>>::empty());
    assert(texts(r@) =~= Seq::<Seq<char>>::empty());
    while i < rows.len()
        invariant
            i <= rows@.len(),
            all == trimmed_all(texts(rows@)),
            texts(r@) == nonempty(all.take(i as int)),
        decreases rows@.len() - i,
    {
        let ghost next = all.take(i + 1);
        assert(next.drop_last() =~= all.take(i as int));
        let row: String = trim(&rows[i]);
        assert(next.last() == row@);
        if !row.as_str().is_empty() {
            proof {
                lemma_texts_push(r@, row);
            }
            r.push(row);
        }
        i = i + 1;
    }
    assert(all.take(all.len() as int) =~= all);
    r
}

/// The answer that an action leads to without a value from the controller.
pub open spec fn answer_text(a: PmiView) -> Option<Seq<char>> {
    match a {
        PmiView::Reply(text) => Some(text),
        PmiView::Barrier(_, text) => Some(text),
        PmiView::Put(_, _, _, text) => Some(text),
        PmiView::Get(_, _) => None,
    }
}

/// Every answer ends its line, so that the process can tell answers apart.
pub proof fn law_answers_end_their_line(req: Seq<char>, value: Option<Seq<char>>)
    ensures
        answer_text(request_action(req)) matches Some(text) ==> text.len() > 0 && text.last()
            == '\n',
        get_answer(value).len() > 0 && get_answer(value).last() == '\n',
{
    reveal_strlit("cmd=response_to_init pmi_version=1 pmi_subversion=1 rc=0\n");
    reveal_strlit("cmd=init-v1-req-response;rc=0;pmi_version=2;pmi_subversion=0;\n");
    reveal_strlit("cmd=get_maxes_response kvsname_max=255 keylen_max=255 vallen_max=1024 rc=0\n");
    reveal_strlit("cmd=get_my_kvsname_response kvsname=veloce_step rc=0\n");
    reveal_strlit("cmd=get_appnum_response appnum=0 rc=0\n");
    reveal_strlit("cmd=get_universe_size_response size=1 rc=0\n");
    reveal_strlit("cmd=commit_response rc=0\n");
    reveal_strlit("cmd=kvs-fence-response;rc=0;\n");
    reveal_strlit("cmd=barrier_out\n");
    reveal_strlit("cmd=kvs-put-response;rc=0;\n");
    reveal_strlit("cmd=job-disconnect-response;rc=0;\n");
    reveal_strlit("cmd=finalize_response rc=0\n");
    reveal_strlit("cmd=info-response;rc=0;\n");
    reveal_strlit("cmd=error rc=1 msg=unknown_cmd\n");
    reveal_strlit("cmd=error rc=1 msg=no_cmd\n");
    reveal_strlit(";\n");
}

/// A field as it stands in a request.
pub open spec fn row(name: Seq<char>, value: Seq<char>) -> Seq<char> {
    name + "="@ + value
}

pub open spec fn rows(pairs: Seq<(Seq<char>, Seq<char>)>) -> Seq<Seq<char>> {
    Seq::new(pairs.len(), |i: int| row(pairs[i].0, pairs[i].1))
}

/// A request of the first version: its fields with blanks between them.
pub open spec fn blank_request(pairs: Seq<(Seq<char>, Seq<char>)>) -> Seq<char> {
    joined(rows(pairs), seq![' '])
}

/// A request of the second version: its fields, each ended by a semicolon.
pub open spec fn semicolon_request(pairs: Seq<(Seq<char>, Seq<char>)>) -> Seq<char> {
    joined(rows(pairs).push(Seq::empty()), seq![';'])
}

/// A text has no white space at its ends.
pub open spec fn tight(s: Seq<char>) -> bool {
    s.len() > 0 ==> !is_space(s[0]) && !is_space(s.last())
}

/// A field that a request can carry: neither part holds a semicolon nor white space at its ends,
/// and the name holds no equals sign.
pub open spec fn can_be_sent(pair: (Seq<char>, Seq<char>)) -> bool {
    &&& tight(pair.0) && tight(pair.1)
    &&& !pair.0.contains('=')
    &&& !pair.0.contains(';') && !pair.1.contains(';')
}

pub open spec fn no_blanks(pair: (Seq<char>, Seq<char>)) -> bool {
    !pair.0.contains(' ') && !pair.1.contains(' ')
}

/// The value that a list of fields gives last for a name.
pub open spec fn last_value(pairs: Seq<(Seq<char>, Seq<char>)>, name: Seq<char>) -> Option<Seq<char>>
    decreases pairs.len(),
{
    if pairs.len() == 0 {
        None
    } else if pairs.last().0 == name {
        Some(pairs.last().1)
    } else {
        last_value(pairs.drop_last(), name)
    }
}

proof fn lemma_row_holds(name: Seq<char>, value: Seq<char>, c: char)
    requires
        c != '=',
        !name.contains(c),
        !value.contains(c),
    ensures
        !row(name, value).contains(c),
{
    reveal_strlit("=");
    let r = row(name, value);
    if r.contains(c) {
        let i = choose|i: int| 0 <= i < r.len() && r[i] == c;
        if i < name.len() {
            assert(name[i] == c);
        } else if i > name.len() {
            assert(value[i - name.len() - 1] == c);
        }
    }
}

proof fn lemma_cut_at(s: Seq<char>, c: char, from: int, at: int)
    requires
        0 <= from <= at < s.len(),
        s[at] == c,
        forall|i: int| from <= i < at ==> s[i] != c,
    ensures
        char_from(s, c, from) == Some(at),
    decreases at - from,
{
    if from < at {
        lemma_cut_at(s, c, from + 1, at);
    }
}

proof fn lemma_row_is_cut(name: Seq<char>, value: Seq<char>)
    requires
        !name.contains('='),
    ensures
        cut(row(name, value), '=') == Some((name, value)),
{
    reveal_strlit("=");
    let r = row(name, value);
    assert forall|i: int| 0 <= i < name.len() implies r[i] != '=' by {
        assert(r[i] == name[i]);
    }
    lemma_cut_at(r, '=', 0, name.len() as int);
    assert(r.take(name.len() as int) =~= name);
    assert(r.skip((name.len() + 1) as int) =~= value);
}

proof fn lemma_rows_are_read(pairs: Seq<(Seq<char>, Seq<char>)>, name: Seq<char>)
    requires
        forall|i: int| 0 <= i < pairs.len() ==> can_be_sent(#[trigger] pairs[i]),
    ensures
        field_of(rows(pairs), name) == last_value(pairs, name),
    decreases pairs.len(),
{
    if pairs.len() > 0 {
        let last = pairs.last();
        let front = pairs.drop_last();
        assert(can_be_sent(pairs[pairs.len() - 1]));
        assert forall|i: int| 0 <= i < front.len() implies can_be_sent(#[trigger] front[i]) by {
            assert(front[i] == pairs[i]);
        }
        lemma_rows_are_read(front, name);
        assert(rows(pairs).drop_last() =~= rows(front));
        lemma_row_is_cut(last.0, last.1);
        lemma_trimmed_stays(last.0);
        lemma_trimmed_stays(last.1);
    }
}

/// The fields of a request are read as they were sent, in either version of the protocol: of a
/// field that is sent more than once, the last.
pub proof fn law_fields_are_read_as_sent(pairs: Seq<(Seq<char>, Seq<char>)>, name: Seq<char>)
    requires
        pairs.len() > 0,
        forall|i: int| 0 <= i < pairs.len() ==> can_be_sent(#[trigger] pairs[i]),
    ensures
        field_of(tokens(semicolon_request(pairs)), name) == last_value(pairs, name),
        (forall|i: int| 0 <= i < pairs.len() ==> no_blanks(#[trigger] pairs[i])) ==> field_of(
            tokens(blank_request(pairs)),
            name,
        ) == last_value(pairs, name),
{
    let list = rows(pairs);
    lemma_rows_are_read(pairs, name);
    assert forall|i: int| 0 <= i < list.len() implies !(#[trigger] list[i]).contains(';') by {
        assert(can_be_sent(pairs[i]));
        lemma_row_holds(pairs[i].0, pairs[i].1, ';');
    }
    let ended = list.push(Seq::empty());
    assert forall|i: int| 0 <= i < ended.len() implies !(#[trigger] ended[i]).contains(';') by {
        if i < list.len() {
            assert(ended[i] == list[i]);
        }
    }
    law_split_undoes_join(ended, ';');
    let text = semicolon_request(pairs);
    assert(ended.drop_last() =~= list);
    let before = joined(list, seq![';']);
    assert(text[before.len() as int] == ';');
    assert(cut(Seq::<char>::empty(), '=') is None);
    assert(field_of(ended, name) == field_of(list, name));
    if forall|i: int| 0 <= i < pairs.len() ==> no_blanks(#[trigger] pairs[i]) {
        assert forall|i: int| 0 <= i < list.len() implies !(#[trigger] list[i]).contains(' ') by {
            assert(no_blanks(pairs[i]));
            lemma_row_holds(pairs[i].0, pairs[i].1, ' ');
        }
        law_split_undoes_join(list, ' ');
        lemma_joined_without(list, ' ', ';');
    }
}

proof fn lemma_joined_without(p: Seq<Seq<char>>, sep: char, c: char)
    requires
        sep != c,
        forall|i: int| 0 <= i < p.len() ==> !(#[trigger] p[i]).contains(c),
    ensures
        !joined(p, seq![sep]).contains(c),
    decreases p.len(),
{
    if p.len() > 0 {
        assert(!p[p.len() - 1].contains(c));
    }
    if p.len() > 1 {
        let front = p.drop_last();
        assert forall|i: int| 0 <= i < front.len() implies !(#[trigger] front[i]).contains(c) by {
            assert(front[i] == p[i]);
        }
        lemma_joined_without(front, sep, c);
        let before = joined(front, seq![sep]);
        let all = joined(p, seq![sep]);
        if all.contains(c) {
            let i = choose|i: int| 0 <= i < all.len() && all[i] == c;
            if i < before.len() {
                assert(before[i] == c);
            } else if i > before.len() {
                assert(p.last()[i - before.len() - 1] == c);
            }
        }
    }
}

/// The commands that the server knows.
pub open spec fn is_known(cmd: Seq<char>) -> bool {
    ||| cmd == "init"@ || cmd == "init-v1-req"@
    ||| cmd == "get_maxes"@ || cmd == "get-maxes"@
    ||| cmd == "get_my_kvsname"@ || cmd == "kvs-get-my-name"@
    ||| cmd == "get_appnum"@ || cmd == "appnum-get"@
    ||| cmd == "get_universe_size"@ || cmd == "universe-size-get"@
    ||| cmd == "commit"@ || cmd == "kvs-commit"@
    ||| cmd == "barrier_in"@ || cmd == "kvs-fence"@
    ||| cmd == "put"@ || cmd == "kvs-put"@
    ||| cmd == "get"@ || cmd == "kvs-get"@
    ||| cmd == "job-disconnect"@ || cmd == "finalize"@ || cmd == "info"@
}

proof fn lemma_commands_differ()
    ensures
        "init"@.len() == 4,
        "init-v1-req"@.len() == 11,
        "get_maxes"@.len() == 9,
        "get-maxes"@.len() == 9,
        "get_my_kvsname"@.len() == 14,
        "kvs-get-my-name"@.len() == 15,
        "get_appnum"@.len() == 10,
        "appnum-get"@.len() == 10,
        "get_universe_size"@.len() == 17,
        "universe-size-get"@.len() == 17,
        "commit"@.len() == 6,
        "kvs-commit"@.len() == 10,
        "barrier_in"@.len() == 10,
        "kvs-fence"@.len() == 9,
        "put"@.len() == 3,
        "kvs-put"@.len() == 7,
        "get"@.len() == 3,
        "kvs-get"@.len() == 7,
        "job-disconnect"@.len() == 14,
        "finalize"@.len() == 8,
        "info"@.len() == 4,
        "init"@[2] == 'i' && "info"@[2] == 'f',
        "put"@[0] == 'p' && "get"@[0] == 'g',
        "kvs-put"@[4] == 'p' && "kvs-get"@[4] == 'g',
        "get_maxes"@[3] == '_' && "get-maxes"@[3] == '-' && "kvs-fence"@[3] == '-',
        "get-maxes"@[0] == 'g' && "kvs-fence"@[0] == 'k',
        "get_my_kvsname"@[0] == 'g' && "job-disconnect"@[0] == 'j',
        "get_universe_size"@[0] == 'g' && "universe-size-get"@[0] == 'u',
        "get_appnum"@[0] == 'g' && "appnum-get"@[0] == 'a' && "kvs-commit"@[0] == 'k'
            && "barrier_in"@[0] == 'b',
{
    reveal_strlit("init");
    reveal_strlit("init-v1-req");
    reveal_strlit("get_maxes");
    reveal_strlit("get-maxes");
    reveal_strlit("get_my_kvsname");
    reveal_strlit("kvs-get-my-name");
    reveal_strlit("get_appnum");
    reveal_strlit("appnum-get");
    reveal_strlit("get_universe_size");
    reveal_strlit("universe-size-get");
    reveal_strlit("commit");
    reveal_strlit("kvs-commit");
    reveal_strlit("barrier_in");
    reveal_strlit("kvs-fence");
    reveal_strlit("put");
    reveal_strlit("kvs-put");
    reveal_strlit("get");
    reveal_strlit("kvs-get");
    reveal_strlit("job-disconnect");
    reveal_strlit("finalize");
    reveal_strlit("info");
}

/// A request without a command, and one with a command that the server does not know, are answered
/// with an error; no other is.
pub proof fn law_only_unknown_commands_are_refused(req: Seq<char>)
    ensures
        ({
            let cmd = field_of(tokens(req), "cmd"@);
            let action = request_action(req);
            let no_cmd = PmiView::Reply("cmd=error rc=1 msg=no_cmd\n"@);
            let unknown = PmiView::Reply("cmd=error rc=1 msg=unknown_cmd\n"@);
            &&& action == no_cmd <==> cmd is None
            &&& action == unknown <==> cmd is Some && !is_known(cmd->0)
            &&& cmd is Some && is_known(cmd->0) ==> (action matches PmiView::Reply(text)
                ==> has_text(text, "rc=0"@))
        }),
{
    lemma_commands_differ();
    lemma_answers_succeed();
}

proof fn lemma_answers_succeed()
    ensures
        "cmd=error rc=1 msg=no_cmd\n"@ != "cmd=error rc=1 msg=unknown_cmd\n"@,
        !has_text("cmd=error rc=1 msg=no_cmd\n"@, "rc=0"@),
        !has_text("cmd=error rc=1 msg=unknown_cmd\n"@, "rc=0"@),
        has_text("cmd=response_to_init pmi_version=1 pmi_subversion=1 rc=0\n"@, "rc=0"@),
        has_text("cmd=init-v1-req-response;rc=0;pmi_version=2;pmi_subversion=0;\n"@, "rc=0"@),
        has_text(
            "cmd=get_maxes_response kvsname_max=255 keylen_max=255 vallen_max=1024 rc=0\n"@,
            "rc=0"@,
        ),
        has_text("cmd=get_my_kvsname_response kvsname=veloce_step rc=0\n"@, "rc=0"@),
        has_text("cmd=get_appnum_response appnum=0 rc=0\n"@, "rc=0"@),
        has_text("cmd=get_universe_size_response size=1 rc=0\n"@, "rc=0"@),
        has_text("cmd=commit_response rc=0\n"@, "rc=0"@),
        has_text("cmd=job-disconnect-response;rc=0;\n"@, "rc=0"@),
        has_text("cmd=finalize_response rc=0\n"@, "rc=0"@),
        has_text("cmd=info-response;rc=0;\n"@, "rc=0"@),
{
    reveal_strlit("rc=0");
    reveal_strlit("cmd=error rc=1 msg=no_cmd\n");
    reveal_strlit("cmd=error rc=1 msg=unknown_cmd\n");
    reveal_strlit("cmd=response_to_init pmi_version=1 pmi_subversion=1 rc=0\n");
    reveal_strlit("cmd=init-v1-req-response;rc=0;pmi_version=2;pmi_subversion=0;\n");
    reveal_strlit("cmd=get_maxes_response kvsname_max=255 keylen_max=255 vallen_max=1024 rc=0\n");
    reveal_strlit("cmd=get_my_kvsname_response kvsname=veloce_step rc=0\n");
    reveal_strlit("cmd=get_appnum_response appnum=0 rc=0\n");
    reveal_strlit("cmd=get_universe_size_response size=1 rc=0\n");
    reveal_strlit("cmd=commit_response rc=0\n");
    reveal_strlit("cmd=job-disconnect-response;rc=0;\n");
    reveal_strlit("cmd=finalize_response rc=0\n");
    reveal_strlit("cmd=info-response;rc=0;\n");
    lemma_no_success("cmd=error rc=1 msg=no_cmd\n"@);
    lemma_no_success("cmd=error rc=1 msg=unknown_cmd\n"@);
    assert("cmd=error rc=1 msg=no_cmd\n"@.len() != "cmd=error rc=1 msg=unknown_cmd\n"@.len());
    lemma_success_at("cmd=response_to_init pmi_version=1 pmi_subversion=1 rc=0\n"@, 52);
    lemma_success_at("cmd=init-v1-req-response;rc=0;pmi_version=2;pmi_subversion=0;\n"@, 25);
    lemma_success_at(
        "cmd=get_maxes_response kvsname_max=255 keylen_max=255 vallen_max=1024 rc=0\n"@,
        70,
    );
    lemma_success_at("cmd=get_my_kvsname_response kvsname=veloce_step rc=0\n"@, 48);
    lemma_success_at("cmd=get_appnum_response appnum=0 rc=0\n"@, 33);
    lemma_success_at("cmd=get_universe_size_response size=1 rc=0\n"@, 38);
    lemma_success_at("cmd=commit_response rc=0\n"@, 20);
    lemma_success_at("cmd=job-disconnect-response;rc=0;\n"@, 28);
    lemma_success_at("cmd=finalize_response rc=0\n"@, 22);
    lemma_success_at("cmd=info-response;rc=0;\n"@, 18);
}

proof fn lemma_success_at(text: Seq<char>, at: int)
    requires
        0 <= at && at + 4 <= text.len(),
        text[at] == 'r',
        text[at + 1] == 'c',
        text[at + 2] == '=',
        text[at + 3] == '0',
    ensures
        has_text(text, "rc=0"@),
{
    reveal_strlit("rc=0");
    assert(text.subrange(at, at + 4) =~= "rc=0"@);
    assert(occurs_at(text, "rc=0"@, at));
}

proof fn lemma_no_success(text: Seq<char>)
    requires
        forall|i: int| 0 <= i < text.len() ==> #[trigger] text[i] != '0',
    ensures
        !has_text(text, "rc=0"@),
{
    reveal_strlit("rc=0");
    if has_text(text, "rc=0"@) {
        let i = choose|i: int| occurs_at(text, "rc=0"@, i);
        assert(text.subrange(i, i + 4)[3] == '0');
        assert(text[i + 3] == '0');
    }
}

/// Both spellings of an operation, that of the first version of the protocol and that of the
/// second, lead to the same action.
pub proof fn law_both_spellings_do_the_same(t: Seq<Seq<char>>)
    ensures
        command_action("get"@, t) == command_action("kvs-get"@, t),
        command_action("put"@, t) == command_action("kvs-put"@, t),
        command_action("commit"@, t) == command_action("kvs-commit"@, t),
        command_action("get_maxes"@, t) == command_action("get-maxes"@, t),
        command_action("get_my_kvsname"@, t) == command_action("kvs-get-my-name"@, t),
        command_action("get_appnum"@, t) == command_action("appnum-get"@, t),
        command_action("get_universe_size"@, t) == command_action("universe-size-get"@, t),
        command_action("barrier_in"@, t) matches PmiView::Barrier(a, _) && command_action(
            "kvs-fence"@,
            t,
        ) matches PmiView::Barrier(b, _) && a == b,
{
    lemma_commands_differ();
}

/// What each command is for: gets ask for the key, puts hand over the pair, barriers are waited
/// at, in the name of the rank that the request gives; the rest is answered at once.
pub proof fn law_commands_do_what_they_say(req: Seq<char>, cmd: Seq<char>)
    requires
        field_of(tokens(req), "cmd"@) == Some(cmd),
    ensures
        request_action(req) is Get <==> cmd == "get"@ || cmd == "kvs-get"@,
        request_action(req) is Put <==> cmd == "put"@ || cmd == "kvs-put"@,
        request_action(req) is Barrier <==> cmd == "barrier_in"@ || cmd == "kvs-fence"@,
        cmd == "kvs-fence"@ ==> answer_text(request_action(req)) == Some(
            "cmd=kvs-fence-response;rc=0;\n"@,
        ),
        cmd == "barrier_in"@ ==> answer_text(request_action(req)) == Some("cmd=barrier_out\n"@),
        request_action(req) is Put ==> answer_text(request_action(req)) == Some(
            "cmd=kvs-put-response;rc=0;\n"@,
        ),
        cmd == "init"@ ==> answer_text(request_action(req)) == Some(
            "cmd=response_to_init pmi_version=1 pmi_subversion=1 rc=0\n"@,
        ),
        cmd == "init-v1-req"@ ==> answer_text(request_action(req)) == Some(
            "cmd=init-v1-req-response;rc=0;pmi_version=2;pmi_subversion=0;\n"@,
        ),
        cmd == "get_maxes"@ || cmd == "get-maxes"@ ==> answer_text(request_action(req)) == Some(
            "cmd=get_maxes_response kvsname_max=255 keylen_max=255 vallen_max=1024 rc=0\n"@,
        ),
        cmd == "get_my_kvsname"@ || cmd == "kvs-get-my-name"@ ==> answer_text(request_action(req))
            == Some("cmd=get_my_kvsname_response kvsname=veloce_step rc=0\n"@),
        cmd == "get_appnum"@ || cmd == "appnum-get"@ ==> answer_text(request_action(req)) == Some(
            "cmd=get_appnum_response appnum=0 rc=0\n"@,
        ),
        cmd == "get_universe_size"@ || cmd == "universe-size-get"@ ==> answer_text(
            request_action(req),
        ) == Some("cmd=get_universe_size_response size=1 rc=0\n"@),
        cmd == "commit"@ || cmd == "kvs-commit"@ ==> answer_text(request_action(req)) == Some(
            "cmd=commit_response rc=0\n"@,
        ),
        cmd == "job-disconnect"@ ==> answer_text(request_action(req)) == Some(
            "cmd=job-disconnect-response;rc=0;\n"@,
        ),
        cmd == "finalize"@ ==> answer_text(request_action(req)) == Some(
            "cmd=finalize_response rc=0\n"@,
        ),
        cmd == "info"@ ==> answer_text(request_action(req)) == Some("cmd=info-response;rc=0;\n"@),
{
    lemma_commands_differ();
}

/// A request with the given fields leads to what its command says, with the rank, the key and the
/// value that it carries, in either version of the protocol. A rank that is missing or no number
/// is taken for 0, a missing key for `unknown`, a missing value for nothing.
pub proof fn law_requests_lead_to_their_actions(
    pairs: Seq<(Seq<char>, Seq<char>)>,
    req: Seq<char>,
    cmd: Seq<char>,
)
    requires
        pairs.len() > 0,
        forall|i: int| 0 <= i < pairs.len() ==> can_be_sent(#[trigger] pairs[i]),
        last_value(pairs, "cmd"@) == Some(cmd),
        req == semicolon_request(pairs) || (req == blank_request(pairs) && forall|i: int|
            0 <= i < pairs.len() ==> no_blanks(#[trigger] pairs[i])),
    ensures
        ({
            let rank = match last_value(pairs, "rank"@) {
                Some(v) => match parsed_u32(v) {
                    Some(n) => n,
                    None => 0u32,
                },
                None => 0u32,
            };
            let key = match last_value(pairs, "key"@) {
                Some(v) => v,
                None => "unknown"@,
            };
            let value = match last_value(pairs, "value"@) {
                Some(v) => v,
                None => ""@,
            };
            &&& cmd == "get"@ || cmd == "kvs-get"@ ==> request_action(req) == PmiView::Get(
                rank,
                key,
            )
            &&& cmd == "put"@ || cmd == "kvs-put"@ ==> request_action(req) == PmiView::Put(
                rank,
                key,
                value,
                "cmd=kvs-put-response;rc=0;\n"@,
            )
            &&& cmd == "kvs-fence"@ || cmd == "barrier_in"@ ==> (request_action(
                req,
            ) matches PmiView::Barrier(r, _) && r == rank)
        }),
{
    lemma_commands_differ();
    law_fields_are_read_as_sent(pairs, "cmd"@);
    law_fields_are_read_as_sent(pairs, "rank"@);
    law_fields_are_read_as_sent(pairs, "key"@);
    law_fields_are_read_as_sent(pairs, "value"@);
}

/// The rank that a process gives as a number is the rank that it is served under.
pub proof fn law_ranks_are_read(pairs: Seq<(Seq<char>, Seq<char>)>, rank: u32)
    requires
        forall|i: int| 0 <= i < pairs.len() ==> can_be_sent(#[trigger] pairs[i]),
        pairs.len() > 0,
        last_value(pairs, "rank"@) == Some(decimal(rank as nat)),
    ensures
        rank_of(tokens(semicolon_request(pairs))) == rank,
{
    law_fields_are_read_as_sent(pairs, "rank"@);
    law_read_undoes_decimal(rank as nat);
}

/// A process reads out of the answer to its get the value that was found.
pub proof fn law_values_are_read_from_the_answer(value: Seq<char>)
    requires
        tight(value),
        !value.contains(';'),
    ensures
        get_answer(Some(value)).last() == '\n',
        field_of(tokens(get_answer(Some(value)).drop_last()), "value"@) == Some(value),
        field_of(tokens(get_answer(Some(value)).drop_last()), "rc"@) == Some("0"@),
        field_of(tokens(get_answer(Some(value)).drop_last()), "cmd"@) == Some("kvs-get-response"@),
        get_answer(None) == get_answer(Some("unknown"@)),
{
    reveal_strlit("cmd=kvs-get-response;rc=0;value=");
    reveal_strlit(";\n");
    reveal_strlit("cmd");
    reveal_strlit("rc");
    reveal_strlit("value");
    reveal_strlit("kvs-get-response");
    reveal_strlit("0");
    reveal_strlit("=");
    let pairs = seq![("cmd"@, "kvs-get-response"@), ("rc"@, "0"@), ("value"@, value)];
    let text = get_answer(Some(value)).drop_last();
    let list = rows(pairs).push(Seq::empty());
    let a = list.take(3);
    let b = list.take(2);
    let c = list.take(1);
    assert(list.drop_last() =~= a);
    assert(a.drop_last() =~= b);
    assert(b.drop_last() =~= c);
    let sep = seq![';'];
    let first = row("cmd"@, "kvs-get-response"@);
    let second = row("rc"@, "0"@);
    let third = row("value"@, value);
    assert(c[0] == first && b.last() == second && a.last() == third);
    assert(joined(c, sep) == first);
    assert(joined(b, sep) == first + sep + second);
    assert(joined(a, sep) == first + sep + second + sep + third);
    assert(joined(list, sep) == first + sep + second + sep + third + sep + Seq::<char>::empty());
    assert("cmd=kvs-get-response;rc=0;value="@ =~= first + sep + second + sep + ("value"@ + "="@));
    assert(text =~= "cmd=kvs-get-response;rc=0;value="@ + value + sep);
    assert(first + sep + second + sep + third + sep + Seq::<char>::empty() =~= first + sep + second
        + sep + ("value"@ + "="@) + value + sep);
    assert forall|i: int| 0 <= i < pairs.len() implies can_be_sent(#[trigger] pairs[i]) by {
        assert(!"cmd"@.contains('=') && !"cmd"@.contains(';'));
        assert(!"rc"@.contains('=') && !"rc"@.contains(';'));
        assert(!"value"@.contains('=') && !"value"@.contains(';'));
        assert(!"kvs-get-response"@.contains(';'));
        assert(!"0"@.contains(';'));
    }
    let p2 = pairs.drop_last();
    let p1 = p2.drop_last();
    assert(pairs.last() == ("value"@, value));
    assert(p2.last() == ("rc"@, "0"@));
    assert(p1.last() == ("cmd"@, "kvs-get-response"@));
    assert("cmd"@.len() == 3 && "rc"@.len() == 2 && "value"@.len() == 5);
    law_fields_are_read_as_sent(pairs, "value"@);
    law_fields_are_read_as_sent(pairs, "rc"@);
    law_fields_are_read_as_sent(pairs, "cmd"@);
    assert(last_value(p2, "rc"@) == Some("0"@));
    assert(last_value(p1, "cmd"@) == Some("kvs-get-response"@));
    assert(last_value(p2, "cmd"@) == Some("kvs-get-response"@));
}

/// The requests that stand in what a process has sent.
pub open spec fn requests_in(input: Seq<char>) -> Seq<Seq<char>> {
    nonempty(trimmed_all(split_on(input, '\n')))
}

/// Requests that are sent line by line arrive one by one, in their order.
pub proof fn law_requests_arrive_line_by_line(reqs: Seq<Seq<char>>)
    requires
        forall|i: int|
            0 <= i < reqs.len() ==> (#[trigger] reqs[i]).len() > 0 && tight(reqs[i])
                && !reqs[i].contains('\n'),
    ensures
        requests_in(joined(reqs.push(Seq::empty()), seq!['\n'])) == reqs,
{
    let sent = reqs.push(Seq::empty());
    assert forall|i: int| 0 <= i < sent.len() implies !(#[trigger] sent[i]).contains('\n') by {
        if i < reqs.len() {
            assert(sent[i] == reqs[i]);
        }
    }
    law_split_undoes_join(sent, '\n');
    assert forall|i: int| 0 <= i < sent.len() implies trimmed(#[trigger] sent[i]) == sent[i] by {
        if i < reqs.len() {
            assert(sent[i] == reqs[i]);
        }
        lemma_trimmed_stays(sent[i]);
    }
    assert(trimmed_all(sent) =~= sent);
    lemma_all_nonempty(reqs);
    assert(sent.drop_last() =~= reqs);
}

proof fn lemma_all_nonempty(p: Seq<Seq<char>>)
    requires
        forall|i: int| 0 <= i < p.len() ==> (#[trigger] p[i]).len() > 0,
    ensures
        nonempty(p) == p,
    decreases p.len(),
{
    if p.len() > 0 {
        let front = p.drop_last();
        assert forall|i: int| 0 <= i < front.len() implies (#[trigger] front[i]).len() > 0 by {
            assert(front[i] == p[i]);
        }
        lemma_all_nonempty(front);
        assert(p[p.len() - 1].len() > 0);
        assert(front.push(p.last()) =~= p);
    } else {
        assert(p =~= Seq::<Seq<char>>::empty());
    }
}

/// An action is read as it stands: the rank, the key and the value are those that it names.
pub proof fn law_actions_are_read_as_they_stand(rank: u32, key: String, value: String, text: String)
    ensures
        (PmiAction::Reply { text })@ == PmiView::Reply(text@),
        (PmiAction::Barrier { rank, text })@ == PmiView::Barrier(rank, text@),
        (PmiAction::Put { rank, key, value, text })@ == PmiView::Put(rank, key@, value@, text@),
        (PmiAction::Get { rank, key })@ == PmiView::Get(rank, key@),
{
}

} // verus!
