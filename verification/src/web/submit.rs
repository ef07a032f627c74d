//! Submitting a job: picking a template, filling in its command, and what is sent.

use vstd::prelude::*;

use crate::assets::container_for;
use crate::assets::container_from;
use crate::assets::first_of_product;
use crate::assets::matching_container;
use crate::assets::ContainerAsset;
use crate::assets::ParameterDef;
use crate::assets::TemplateCard;
use crate::envs::EnvList;
use crate::json::json_field;
use crate::json::json_field_of;
use crate::json::new_job_id;
use crate::json::number_in;
use crate::json::FieldView;
use crate::json::JsonField;
use crate::numbers::decimal;
use crate::numbers::decimal_u32;
use crate::numbers::decimal_u64;
use crate::numbers::parse_u32;
use crate::numbers::parse_u64;
use crate::numbers::parsed_u32;
use crate::numbers::parsed_u64;
use crate::pieces::law_first_is_replaced;
use crate::pieces::law_nothing_to_replace;
use crate::pieces::law_split_at_the_end;
use crate::pieces::law_split_of_one_piece;
use crate::pieces::replace;
use crate::pieces::replaced;
use crate::pieces::split_char;
use crate::pieces::split_on;
use crate::shell::command_words;
use crate::shell::shell_join;
use crate::shell::shell_join_of;
use crate::shell::split_command;
use crate::text::ends_with;
use crate::text::has_prefix;
use crate::text::has_suffix;
use crate::text::has_text;
use crate::text::lemma_ends_with;
use crate::text::lemma_trimmed_stays;
use crate::text::occurs_at;
use crate::text::optional_text;
use crate::text::str_eq;
use crate::text::texts;
use crate::text::trim;
use crate::text::trimmed;
use crate::web::api::is_ok;
use crate::web::api::ok;

verus! {

/// The templates that are filled in by hand.
pub open spec fn is_manual(template: Seq<char>) -> bool {
    template == "General"@ || template == "CWL Workflow"@
}

pub fn manual(template: &str) -> (r: bool)
    ensures
        r == is_manual(template@),
{
    str_eq(template, "General") || str_eq(template, "CWL Workflow")
}

/// The first card of a name, from `from` on.
pub open spec fn card_from(cards: Seq<TemplateCard>, name: Seq<char>, from: int) -> Option<int>
    decreases cards.len() - from,
{
    if from < 0 || from >= cards.len() {
        None
    } else if cards[from].name@ == name {
        Some(from)
    } else {
        card_from(cards, name, from + 1)
    }
}

/// The template and the version that a choice comes to. A manual template stays; one that is
/// offered stays, with a version that is offered; another gives way to the first one offered, or
/// to the general one.
pub open spec fn settled(
    cards: Seq<TemplateCard>,
    template: Seq<char>,
    version: Seq<char>,
) -> (Seq<char>, Seq<char>) {
    if is_manual(template) {
        (template, version)
    } else {
        match card_from(cards, template, 0) {
            Some(i) => if texts(cards[i].versions@).contains(version) {
                (template, version)
            } else {
                (template, cards[i].first_version@)
            },
            None => if cards.len() > 0 {
                (cards[0].name@, cards[0].first_version@)
            } else {
                ("General"@, ""@)
            },
        }
    }
}

fn offers_version(card: &TemplateCard, version: &str) -> (r: bool)
    ensures
        r == texts(card.versions@).contains(version@),
{
    let ghost all = texts(card.versions@);
    let mut i: usize = 0;
    while i < card.versions.len()
        invariant
            i <= card.versions@.len(),
            all == texts(card.versions@),
            forall|k: int| 0 <= k < i ==> #[trigger] all[k] != version@,
        decreases card.versions@.len() - i,
    {
        assert(all[i as int] == card.versions@[i as int]@);
        if str_eq(&card.versions[i], version) {
            return true;
        }
        i = i + 1;
    }
    false
}

pub fn settle_template(cards: &Vec<TemplateCard>, template: &str, version: &str) -> (r: (
    String,
    String,
))
    ensures
        (r.0@, r.1@) == settled(cards@, template@, version@),
{
    if manual(template) {
        return (template.to_string(), version.to_string());
    }
    let mut i: usize = 0;
    while i < cards.len()
        invariant
            i <= cards@.len(),
            !is_manual(template@),
            card_from(cards@, template@, 0) == card_from(cards@, template@, i as int),
        decreases cards@.len() - i,
    {
        if str_eq(&cards[i].name, template) {
            if offers_version(&cards[i], version) {
                return (template.to_string(), version.to_string());
            } else {
                return (template.to_string(), cards[i].first_version.clone());
            }
        }
        i = i + 1;
    }
    if cards.len() > 0 {
        (cards[0].name.clone(), cards[0].first_version.clone())
    } else {
        ("General".to_string(), "".to_string())
    }
}

/// A choice that has been settled stays, if each card offers the version that it starts with.
pub proof fn law_settling_is_final(
    cards: Seq<TemplateCard>,
    template: Seq<char>,
    version: Seq<char>,
)
    requires
        forall|i: int|
            0 <= i < cards.len() ==> texts((#[trigger] cards[i]).versions@).contains(
                cards[i].first_version@,
            ),
    ensures
        ({
            let (t, v) = settled(cards, template, version);
            settled(cards, t, v) == (t, v)
        }),
{
    lemma_card_from(cards, template, 0);
    if card_from(cards, template, 0) is None && cards.len() > 0 {
        assert(card_from(cards, cards[0].name@, 0) == Some(0int));
    }
}

proof fn lemma_card_from(cards: Seq<TemplateCard>, name: Seq<char>, from: int)
    requires
        0 <= from,
    ensures
        card_from(cards, name, from) matches Some(i) ==> from <= i < cards.len() && cards[i].name@
            == name,
    decreases cards.len() - from,
{
    if from < cards.len() && cards[from].name@ != name {
        lemma_card_from(cards, name, from + 1);
    }
}

/// The defaults of parameters, by name.
pub open spec fn defaults(params: Seq<(String, ParameterDef)>) -> Map<Seq<char>, Seq<char>>
    decreases params.len(),
{
    if params.len() == 0 {
        Map::empty()
    } else {
        let rest = defaults(params.drop_last());
        match params.last().1.default {
            Some(value) => rest.insert(params.last().0@, value@),
            None => rest,
        }
    }
}

fn default_values(params: &Vec<(String, ParameterDef)>) -> (r: EnvList)
    ensures
        r@ == defaults(params@),
{
    let mut r: EnvList = EnvList::new();
    let mut i: usize = 0;
    assert(params@.take(0) =~= Seq::<(String, ParameterDef)>::empty());
    while i < params.len()
        invariant
            i <= params@.len(),
            r@ == defaults(params@.take(i as int)),
        decreases params@.len() - i,
    {
        proof {
            assert(params@.take(i + 1).drop_last() =~= params@.take(i as int));
            assert(params@.take(i + 1).last() == params@[i as int]);
        }
        match &params[i].1.default {
            Some(value) => {
                r = r.with(params[i].0.clone(), value.clone());
            },
            None => {},
        }
        i = i + 1;
    }
    assert(params@.take(params@.len() as int) =~= params@);
    r
}

/// The form as it stands.
pub struct SubmitForm {
    pub template: String,
    pub version: String,
    pub binary: String,
    pub args: String,
    pub command_template: String,
    pub cwd: String,
    pub image_uri: Option<String>,
    pub cwl_content: String,
    pub input_file: String,
    pub params: EnvList,
    /// The template and the version that the form was last filled in for.
    pub filled: Option<(String, String)>,
}

pub ghost struct FormView {
    pub template: Seq<char>,
    pub version: Seq<char>,
    pub binary: Seq<char>,
    pub args: Seq<char>,
    pub command_template: Seq<char>,
    pub cwd: Seq<char>,
    pub image_uri: Option<Seq<char>>,
    pub cwl_content: Seq<char>,
    pub input_file: Seq<char>,
    pub params: Map<Seq<char>, Seq<char>>,
    pub filled: Option<(Seq<char>, Seq<char>)>,
}

impl View for SubmitForm {
    type V = FormView;

    open spec fn view(&self) -> FormView {
        FormView {
            template: self.template@,
            version: self.version@,
            binary: self.binary@,
            args: self.args@,
            command_template: self.command_template@,
            cwd: self.cwd@,
            image_uri: match self.image_uri {
                Some(uri) => Some(uri@),
                None => None,
            },
            cwl_content: self.cwl_content@,
            input_file: self.input_file@,
            params: self.params@,
            filled: match self.filled {
                Some(pair) => Some((pair.0@, pair.1@)),
                None => None,
            },
        }
    }
}

/// The form after it has been filled in for a container.
pub open spec fn filled_from(form: FormView, c: ContainerAsset) -> FormView {
    FormView {
        binary: c.manifest.execution.entrypoint@,
        command_template: c.manifest.execution.command_template@,
        image_uri: Some("veloce://"@ + c.id@),
        cwd: "/scratch"@,
        params: defaults(c.manifest.parameter_mapping@),
        version: c.manifest.solver_identity.version@,
        ..form
    }
}

/// The form after a template or a version has been picked. What was typed for another one is
/// dropped; a form that was filled in for this one stays as it is.
pub open spec fn filled_in(form: FormView, containers: Seq<ContainerAsset>) -> FormView {
    if form.filled == Some((form.template, form.version)) {
        form
    } else {
        let fresh = FormView {
            input_file: ""@,
            filled: Some((form.template, form.version)),
            ..form
        };
        if form.template == "General"@ {
            FormView {
                binary: ""@,
                args: ""@,
                command_template: ""@,
                image_uri: None,
                cwl_content: ""@,
                ..fresh
            }
        } else if form.template == "CWL Workflow"@ {
            FormView { binary: ""@, args: ""@, image_uri: None, ..fresh }
        } else {
            match container_for(containers, form.template, form.version) {
                Some(i) => filled_from(fresh, containers[i]),
                None => fresh,
            }
        }
    }
}

impl SubmitForm {
    /// The form as it starts out, for a user.
    pub fn new() -> (r: SubmitForm)
        ensures
            r@ == (FormView {
                template: "General"@,
                version: ""@,
                binary: ""@,
                args: ""@,
                command_template: ""@,
                cwd: "/tmp"@,
                image_uri: None,
                cwl_content: ""@,
                input_file: ""@,
                params: Map::empty(),
                filled: None,
            }),
    {
        SubmitForm {
            template: "General".to_string(),
            version: "".to_string(),
            binary: "".to_string(),
            args: "".to_string(),
            command_template: "".to_string(),
            cwd: "/tmp".to_string(),
            image_uri: None,
            cwl_content: "".to_string(),
            input_file: "".to_string(),
            params: EnvList::new(),
            filled: None,
        }
    }

    /// Fills the form in for the template and the version that are picked, and tells whether
    /// anything was to be done; if so, a file that was picked is dropped, too.
    pub fn fill_in(&mut self, containers: &Vec<ContainerAsset>) -> (r: bool)
        ensures
            final(self)@ == filled_in(old(self)@, containers@),
            r == (old(self)@.filled != Some((old(self)@.template, old(self)@.version))),
    {
        let same: bool = match &self.filled {
            Some(pair) => str_eq(&pair.0, &self.template) && str_eq(&pair.1, &self.version),
            None => false,
        };
        if same {
            return false;
        }
        self.filled = Some((self.template.clone(), self.version.clone()));
        self.input_file = "".to_string();
        if str_eq(&self.template, "General") {
            self.binary = "".to_string();
            self.args = "".to_string();
            self.command_template = "".to_string();
            self.image_uri = None;
            self.cwl_content = "".to_string();
        } else if str_eq(&self.template, "CWL Workflow") {
            self.binary = "".to_string();
            self.args = "".to_string();
            self.image_uri = None;
        } else {
            match matching_container(containers, &self.template, &self.version) {
                Some(i) => {
                    let c: &ContainerAsset = &containers[i];
                    self.binary = c.manifest.execution.entrypoint.clone();
                    self.command_template = c.manifest.execution.command_template.clone();
                    let mut uri: String = "veloce://".to_string();
                    uri.append(&c.id);
                    self.image_uri = Some(uri);
                    self.cwd = "/scratch".to_string();
                    self.params = default_values(&c.manifest.parameter_mapping);
                    self.version = c.manifest.solver_identity.version.clone();
                },
                None => {},
            }
        }
        true
    }
}

/// What stands in a command template for a value.
pub open spec fn placeholder(name: Seq<char>) -> Seq<char> {
    "{{"@ + name + "}}"@
}

fn placeholder_text(name: &str) -> (r: String)
    ensures
        r@ == placeholder(name@),
        r@.len() > 0,
{
    proof {
        reveal_strlit("{{");
    }
    let mut r: String = "{{".to_string();
    r.append(name);
    r.append("}}");
    r
}

/// The value of a parameter: as set, or else its default, or else nothing.
pub open spec fn param_value(
    params: Map<Seq<char>, Seq<char>>,
    name: Seq<char>,
    def: ParameterDef,
) -> Seq<char> {
    if params.contains_key(name) {
        params[name]
    } else {
        match def.default {
            Some(value) => value@,
            None => ""@,
        }
    }
}

/// What a value comes to on a command line. A switch gives its flag if it is on. A value with a
/// flag follows it, and gives nothing if it is missing; one without a flag stands alone.
pub open spec fn param_words(def: ParameterDef, value: Seq<char>) -> Seq<char> {
    if def.param_type is Some && def.param_type->0@ == "boolean"@ {
        if value == "true"@ && def.flag is Some {
            def.flag->0@
        } else {
            ""@
        }
    } else if def.flag is Some {
        if value.len() == 0 || value == "none"@ {
            ""@
        } else {
            def.flag->0@ + " "@ + value
        }
    } else if value == "none"@ {
        ""@
    } else {
        value
    }
}

fn param_text(def: &ParameterDef, value: &str) -> (r: String)
    ensures
        r@ == param_words(*def, value@),
{
    let boolean: bool = match &def.param_type {
        Some(kind) => str_eq(kind, "boolean"),
        None => false,
    };
    if boolean {
        match &def.flag {
            Some(flag) => if str_eq(value, "true") {
                flag.clone()
            } else {
                "".to_string()
            },
            None => "".to_string(),
        }
    } else {
        match &def.flag {
            Some(flag) => if value.is_empty() || str_eq(value, "none") {
                "".to_string()
            } else {
                let mut r: String = flag.clone();
                r.append(" ");
                r.append(value);
                r
            },
            None => if str_eq(value, "none") {
                "".to_string()
            } else {
                value.to_string()
            },
        }
    }
}

/// A command with the parameters filled in, one after the other.
pub open spec fn with_params(
    command: Seq<char>,
    defs: Seq<(String, ParameterDef)>,
    params: Map<Seq<char>, Seq<char>>,
) -> Seq<char>
    decreases defs.len(),
{
    if defs.len() == 0 {
        command
    } else {
        let name = defs.last().0@;
        let def = defs.last().1;
        replaced(
            with_params(command, defs.drop_last(), params),
            placeholder(name),
            param_words(def, param_value(params, name, def)),
        )
    }
}

/// A command template with everything but the parameters filled in.
pub open spec fn with_job(
    command: Seq<char>,
    binary: Seq<char>,
    input: Seq<char>,
    memory: nat,
    cores: nat,
) -> Seq<char> {
    let input = if input.len() == 0 {
        "none"@
    } else {
        input
    };
    let a = replaced(command, "{{executable}}"@, binary);
    let b = replaced(a, "{{entrypoint}}"@, binary);
    let c = replaced(b, "{{input_file}}"@, input);
    let d = replaced(c, "{{custom_args}}"@, ""@);
    let e = replaced(d, "{{memory}}"@, decimal(memory));
    replaced(e, "{{cpus}}"@, decimal(cores))
}

fn fill_job(command: &str, binary: &str, input: &str, memory: u64, cores: u32) -> (r: String)
    ensures
        r@ == with_job(command@, binary@, input@, memory as nat, cores as nat),
{
    proof {
        reveal_strlit("{{executable}}");
        reveal_strlit("{{entrypoint}}");
        reveal_strlit("{{input_file}}");
        reveal_strlit("{{custom_args}}");
        reveal_strlit("{{memory}}");
        reveal_strlit("{{cpus}}");
    }
    let input: &str = if input.is_empty() {
        "none"
    } else {
        input
    };
    let r: String = replace(command, "{{executable}}", binary);
    let r: String = replace(&r, "{{entrypoint}}", binary);
    let r: String = replace(&r, "{{input_file}}", input);
    let r: String = replace(&r, "{{custom_args}}", "");
    let r: String = replace(&r, "{{memory}}", &decimal_u64(memory));
    replace(&r, "{{cpus}}", &decimal_u32(cores))
}

fn fill_params(command: String, defs: &Vec<(String, ParameterDef)>, params: &EnvList) -> (r: String)
    ensures
        r@ == with_params(command@, defs@, params@),
{
    let ghost start = command@;
    let mut r: String = command;
    let mut i: usize = 0;
    assert(defs@.take(0) =~= Seq::<(String, ParameterDef)>::empty());
    while i < defs.len()
        invariant
            i <= defs@.len(),
            r@ == with_params(start, defs@.take(i as int), params@),
        decreases defs@.len() - i,
    {
        proof {
            assert(defs@.take(i + 1).drop_last() =~= defs@.take(i as int));
            assert(defs@.take(i + 1).last() == defs@[i as int]);
        }
        let name: &String = &defs[i].0;
        let def: &ParameterDef = &defs[i].1;
        let value: String = match params.get(name) {
            Some(value) => value,
            None => match &def.default {
                Some(value) => value.clone(),
                None => "".to_string(),
            },
        };
        r = replace(&r, &placeholder_text(name), &param_text(def, &value));
        i = i + 1;
    }
    assert(defs@.take(defs@.len() as int) =~= defs@);
    r
}

/// The command line that a form comes to: as typed for a manual template, and filled in for any
/// other, with the parameters of its container, in their order, last.
pub open spec fn resolved(
    form: FormView,
    containers: Seq<ContainerAsset>,
    memory: nat,
    cores: nat,
) -> Seq<char> {
    if is_manual(form.template) {
        form.args
    } else {
        let command = with_job(
            form.command_template,
            form.binary,
            form.input_file,
            memory,
            cores,
        );
        match container_for(containers, form.template, form.version) {
            Some(i) => with_params(
                command,
                containers[i].manifest.parameter_mapping@,
                form.params,
            ),
            None => command,
        }
    }
}

/// The command as it is shown: the program and what was typed for a manual template, and the
/// command line of any other.
pub open spec fn previewed(form: FormView) -> Seq<char> {
    if is_manual(form.template) {
        form.binary + " "@ + form.args
    } else {
        form.args
    }
}

impl SubmitForm {
    /// Brings the command line up to date with the form.
    pub fn resolve(&mut self, containers: &Vec<ContainerAsset>, memory: u64, cores: u32)
        ensures
            final(self)@ == (FormView {
                args: resolved(old(self)@, containers@, memory as nat, cores as nat),
                ..old(self)@
            }),
    {
        if manual(&self.template) {
            return;
        }
        let command: String = fill_job(
            &self.command_template,
            &self.binary,
            &self.input_file,
            memory,
            cores,
        );
        self.args = match matching_container(containers, &self.template, &self.version) {
            Some(i) => fill_params(
                command,
                &containers[i].manifest.parameter_mapping,
                &self.params,
            ),
            None => command,
        };
    }

    /// The command as it is shown before it is sent.
    pub fn preview(&self) -> (r: String)
        ensures
            r@ == if is_manual(self.template@) {
                self.binary@ + " "@ + self.args@
            } else {
                self.args@
            },
            r@ == previewed(self@),
    {
        if manual(&self.template) {
            let mut r: String = self.binary.clone();
            r.append(" ");
            r.append(&self.args);
            r
        } else {
            self.args.clone()
        }
    }
}

proof fn lemma_nothing_replaced(s: Seq<char>, from: Seq<char>, to: Seq<char>)
    requires
        !has_text(s, from),
    ensures
        replaced(s, from, to) == s,
    decreases s.len(),
{
    if from.len() > 0 && s.len() >= from.len() {
        assert(!occurs_at(s, from, 0));
        let rest = s.skip(1);
        assert forall|i: int| !#[trigger] occurs_at(rest, from, i) by {
            if occurs_at(rest, from, i) {
                assert(rest.subrange(i, i + from.len()) =~= s.subrange(i + 1, i + 1 + from.len()));
                assert(occurs_at(s, from, i + 1));
            }
        }
        lemma_nothing_replaced(rest, from, to);
        assert(s =~= seq![s[0]] + rest);
    }
}

proof fn lemma_no_placeholder(s: Seq<char>, from: Seq<char>)
    requires
        !has_text(s, "{{"@),
        from.len() >= 2,
        from[0] == '{',
        from[1] == '{',
    ensures
        !has_text(s, from),
{
    reveal_strlit("{{");
    if has_text(s, from) {
        let i = choose|i: int| occurs_at(s, from, i);
        let part = s.subrange(i, i + from.len());
        assert(part[0] == s[i]);
        assert(part[1] == s[i + 1]);
        assert(s.subrange(i, i + 2) =~= "{{"@);
        assert(occurs_at(s, "{{"@, i));
    }
}

proof fn lemma_params_stay(
    command: Seq<char>,
    defs: Seq<(String, ParameterDef)>,
    params: Map<Seq<char>, Seq<char>>,
)
    requires
        !has_text(command, "{{"@),
    ensures
        with_params(command, defs, params) == command,
    decreases defs.len(),
{
    if defs.len() > 0 {
        lemma_params_stay(command, defs.drop_last(), params);
        let name = defs.last().0@;
        let def = defs.last().1;
        reveal_strlit("{{");
        lemma_no_placeholder(command, placeholder(name));
        lemma_nothing_replaced(
            command,
            placeholder(name),
            param_words(def, param_value(params, name, def)),
        );
    }
}

/// A command template without placeholders is sent as it is.
pub proof fn law_plain_templates_stay(
    form: FormView,
    containers: Seq<ContainerAsset>,
    memory: nat,
    cores: nat,
)
    requires
        !is_manual(form.template),
        !has_text(form.command_template, "{{"@),
    ensures
        resolved(form, containers, memory, cores) == form.command_template,
{
    let command = form.command_template;
    reveal_strlit("{{executable}}");
    reveal_strlit("{{entrypoint}}");
    reveal_strlit("{{input_file}}");
    reveal_strlit("{{custom_args}}");
    reveal_strlit("{{memory}}");
    reveal_strlit("{{cpus}}");
    let input = if form.input_file.len() == 0 {
        "none"@
    } else {
        form.input_file
    };
    lemma_no_placeholder(command, "{{executable}}"@);
    lemma_no_placeholder(command, "{{entrypoint}}"@);
    lemma_no_placeholder(command, "{{input_file}}"@);
    lemma_no_placeholder(command, "{{custom_args}}"@);
    lemma_no_placeholder(command, "{{memory}}"@);
    lemma_no_placeholder(command, "{{cpus}}"@);
    lemma_nothing_replaced(command, "{{executable}}"@, form.binary);
    lemma_nothing_replaced(command, "{{entrypoint}}"@, form.binary);
    lemma_nothing_replaced(command, "{{input_file}}"@, input);
    lemma_nothing_replaced(command, "{{custom_args}}"@, ""@);
    lemma_nothing_replaced(command, "{{memory}}"@, decimal(memory));
    lemma_nothing_replaced(command, "{{cpus}}"@, decimal(cores));
    match container_for(containers, form.template, form.version) {
        Some(i) => {
            lemma_params_stay(command, containers[i].manifest.parameter_mapping@, form.params);
        },
        None => {},
    }
}

/// The arguments of a command line whose words are `words`: a first word that names the program
/// is not repeated.
pub open spec fn args_of(words: Seq<Seq<char>>, binary: Seq<char>) -> Seq<Seq<char>> {
    if words.len() > 0 && binary.len() > 0 && words[0] == binary {
        words.skip(1)
    } else {
        words
    }
}

/// Drops a first word that names the program.
pub fn strip_program(words: Vec<String>, binary: &str) -> (r: Vec<String>)
    ensures
        texts(r@) == args_of(texts(words@), binary@),
{
    let mut r: Vec<String> = words;
    let ghost all = texts(r@);
    if r.len() > 0 && !binary.is_empty() {
        assert(all[0] == r@[0]@);
        if str_eq(&r[0], binary) {
            r.remove(0);
            assert(texts(r@) =~= all.skip(1));
        }
    }
    r
}

/// The arguments to send.
pub fn final_args(args: &str, binary: &str) -> (r: Vec<String>)
    ensures
        texts(r@) == args_of(command_words(args@), binary@),
{
    strip_program(split_command(args), binary)
}

/// The directory that a job runs in.
pub open spec fn cwd_or_scratch(cwd: Seq<char>) -> Seq<char> {
    if cwd.len() == 0 {
        "/scratch"@
    } else {
        cwd
    }
}

pub fn final_cwd(cwd: &str) -> (r: String)
    ensures
        r@ == cwd_or_scratch(cwd@),
{
    if cwd.is_empty() {
        "/scratch".to_string()
    } else {
        cwd.to_string()
    }
}

/// A file is an archive, by its name.
pub open spec fn names_archive(name: Seq<char>) -> bool {
    has_suffix(name, ".tar.gz"@) || has_suffix(name, ".tgz"@) || has_suffix(name, ".tar"@)
        || has_suffix(name, ".zip"@)
}

pub fn is_archive(name: &str) -> (r: bool)
    ensures
        r == names_archive(name@),
{
    ends_with(name, ".tar.gz") || ends_with(name, ".tgz") || ends_with(name, ".tar") || ends_with(
        name,
        ".zip",
    )
}

/// A whole range of numbers, both ends included; empty if it ends before it starts.
pub open spec fn number_range(start: u32, end: u32) -> Seq<u32> {
    if start <= end {
        Seq::new((end - start + 1) as nat, |i: int| (start + i) as u32)
    } else {
        Seq::empty()
    }
}

/// The numbers that a part of a list of indices stands for: a range, or one number. A part that
/// is neither stands for none.
pub open spec fn indices_in(part: Seq<char>) -> Seq<u32> {
    if part.contains('-') {
        let bounds = split_on(part, '-');
        if bounds.len() == 2 {
            match (parsed_u32(trimmed(bounds[0])), parsed_u32(trimmed(bounds[1]))) {
                (Some(start), Some(end)) => number_range(start, end),
                _ => Seq::empty(),
            }
        } else {
            Seq::empty()
        }
    } else {
        match parsed_u32(trimmed(part)) {
            Some(value) => seq![value],
            None => Seq::empty(),
        }
    }
}

pub open spec fn indices_of(parts: Seq<Seq<char>>) -> Seq<u32>
    decreases parts.len(),
{
    if parts.len() == 0 {
        Seq::empty()
    } else {
        indices_of(parts.drop_last()) + indices_in(parts.last())
    }
}

fn add_range(r: &mut Vec<u32>, start: u32, end: u32)
    ensures
        final(r)@ == old(r)@ + number_range(start, end),
{
    let ghost before = r@;
    if start > end {
        assert(r@ =~= before + number_range(start, end));
        return;
    }
    let mut i: u32 = start;
    r.push(i);
    assert(r@ =~= before + Seq::new(1, |k: int| (start + k) as u32));
    while i < end
        invariant
            start <= i <= end,
            r@ == before + Seq::new((i - start + 1) as nat, |k: int| (start + k) as u32),
        decreases end - i,
    {
        i = i + 1;
        r.push(i);
        assert(r@ =~= before + Seq::new((i - start + 1) as nat, |k: int| (start + k) as u32));
    }
}

fn add_part(r: &mut Vec<u32>, part: &str)
    ensures
        final(r)@ == old(r)@ + indices_in(part@),
{
    let ghost before = r@;
    assert(before + Seq::<u32>::empty() =~= before);
    if has_char(part, '-') {
        let bounds: Vec<String> = split_char(part, '-');
        let ghost b = split_on(part@, '-');
        assert(texts(bounds@) == b);
        if bounds.len() == 2 {
            assert(b[0] == bounds@[0]@ && b[1] == bounds@[1]@);
            match (parse_u32(&trim(&bounds[0])), parse_u32(&trim(&bounds[1]))) {
                (Some(start), Some(end)) => {
                    add_range(r, start, end);
                },
                _ => {},
            }
        }
    } else {
        match parse_u32(&trim(part)) {
            Some(value) => {
                r.push(value);
                assert(r@ =~= before + seq![value]);
            },
            None => {},
        }
    }
}

fn has_char(s: &str, c: char) -> (r: bool)
    ensures
        r == s@.contains(c),
{
    let v: Vec<char> = crate::text::chars_of(s);
    let mut i: usize = 0;
    while i < v.len()
        invariant
            i <= v@.len(),
            v@ == s@,
            forall|k: int| 0 <= k < i ==> v@[k] != c,
        decreases v@.len() - i,
    {
        if v[i] == c {
            return true;
        }
        i = i + 1;
    }
    false
}

/// The indices of an array of jobs, as they were typed; none where they stand for no number.
pub open spec fn array_indices(text: Seq<char>) -> Option<Seq<u32>> {
    let all = indices_of(split_on(text, ','));
    if text.len() == 0 || all.len() == 0 {
        None
    } else {
        Some(all)
    }
}

pub fn parse_array_indices(text: &str) -> (r: Option<Vec<u32>>)
    ensures
        match array_indices(text@) {
            Some(all) => r is Some && r->0@ == all,
            None => r is None,
        },
{
    if text.is_empty() {
        return None;
    }
    let parts: Vec<String> = split_char(text, ',');
    let ghost p = texts(parts@);
    let mut r: Vec<u32> = Vec::new();
    let mut i: usize = 0;
    assert(p.take(0) =~= Seq::<Seq<char>>::empty());
    while i < parts.len()
        invariant
            i <= parts@.len(),
            p == texts(parts@),
            r@ == indices_of(p.take(i as int)),
        decreases parts@.len() - i,
    {
        proof {
            assert(p.take(i + 1).drop_last() =~= p.take(i as int));
            assert(p.take(i + 1).last() == parts@[i as int]@);
        }
        add_part(&mut r, &parts[i]);
        i = i + 1;
    }
    assert(p.take(p.len() as int) =~= p);
    if r.len() == 0 {
        None
    } else {
        Some(r)
    }
}

/// A text without the spaces around it, if anything is left.
pub fn trimmed_or_none(text: &str) -> (r: Option<String>)
    ensures
        r is Some <==> trimmed(text@).len() > 0,
        r matches Some(value) ==> value@ == trimmed(text@),
{
    let value: String = trim(text);
    if value.as_str().is_empty() {
        None
    } else {
        Some(value)
    }
}

/// What the script that fetches an input file and returns the results says, up to its directory.
pub const SCRIPT_START: &'static str = "#!/bin/bash\nset -e\nWORKDIR=\"";

/// From the directory to the number of the file.
pub const SCRIPT_FETCH: &'static str = "\"\nmkdir -p \"$WORKDIR\"\ncd \"$WORKDIR\"\n\n# Download\necho \"Downloading input file...\"\ncurl -k -v -f -H \"X-API-KEY: $VELOCE_FILESERVER_KEY\" -o \"downloaded_file\" \"$VELOCE_FILESERVER_URL/api/v1/files/";

/// From the number of the file to its name.
pub const SCRIPT_NAME: &'static str = "\"\n\n# Restore Filename\nFILENAME=\"";

/// From the name of the file to the command.
pub const SCRIPT_UNPACK: &'static str = "\"\nmv \"downloaded_file\" \"$FILENAME\"\n\n# Unpack if archive\nif [[ \"$FILENAME\" == *.tar.gz || \"$FILENAME\" == *.tgz || \"$FILENAME\" == *.tar ]]; then\n    echo \"Unpacking archive...\"\n    tar -xf \"$FILENAME\"\nelif [[ \"$FILENAME\" == *.zip ]]; then\n    echo \"Unzipping archive...\"\n    unzip \"$FILENAME\"\nfi\n\n# Run Original Command\necho \"Running payload...\"\nset +e\n";

/// From the command to the end.
pub const SCRIPT_RETURN: &'static str = "\nEXIT_CODE=$?\nset -e\n\n# Upload Results\necho \"Creating result archive...\"\nRESULT_ARCHIVE=\"results_$RANDOM.tar.gz\"\ntar -czf \"$RESULT_ARCHIVE\" .\n\necho \"Uploading results...\"\nUPLOAD_RESPONSE=$(curl -k -v -f -H \"X-API-KEY: $VELOCE_FILESERVER_KEY\" -F \"file=@$RESULT_ARCHIVE\" \"$VELOCE_FILESERVER_URL/api/v1/files\")\n\n# Extract File ID\nRESULT_ID=$(echo \"$UPLOAD_RESPONSE\" | grep -oE '[0-9a-f]{8}-[0-9a-f]{4}-[0-9a-f]{4}-[0-9a-f]{4}-[0-9a-f]{12}')\n\nif [ ! -z \"$RESULT_ID\" ]; then\n    echo \"[VELOCE_RESULT_ID: $RESULT_ID]\"\nelse\n    echo \"Failed to upload results or parse ID.\"\nfi\n\n# Cleanup\ncd ..\nrm -rf \"$WORKDIR\"\n\nexit $EXIT_CODE\n";

/// The script that fetches an input file, runs a command line on it, and returns the results.
pub open spec fn upload_script(
    file_id: Seq<char>,
    filename: Seq<char>,
    binary: Seq<char>,
    args_line: Seq<char>,
) -> Seq<char> {
    SCRIPT_START@ + "/tmp/veloce_work_$RANDOM"@ + SCRIPT_FETCH@ + file_id + SCRIPT_NAME@ + filename
        + SCRIPT_UNPACK@ + binary + " "@ + args_line + SCRIPT_RETURN@
}

/// What is to be run.
pub struct Payload {
    pub binary: String,
    pub args: Vec<String>,
    pub cwd: String,
    pub inputs: Vec<JobInput>,
}

/// A file that is put beside the job before it starts.
pub struct JobInput {
    pub file_id: String,
    pub original_name: String,
    pub is_executable: bool,
    pub is_archive: bool,
}

pub ghost struct InputView {
    pub file_id: Seq<char>,
    pub original_name: Seq<char>,
    pub is_executable: bool,
    pub is_archive: bool,
}

impl View for JobInput {
    type V = InputView;

    open spec fn view(&self) -> InputView {
        InputView {
            file_id: self.file_id@,
            original_name: self.original_name@,
            is_executable: self.is_executable,
            is_archive: self.is_archive,
        }
    }
}

pub open spec fn input_views(v: Seq<JobInput>) -> Seq<InputView> {
    Seq::new(v.len(), |i: int| v[i]@)
}

pub ghost struct PayloadView {
    pub binary: Seq<char>,
    pub args: Seq<Seq<char>>,
    pub cwd: Seq<char>,
    pub inputs: Seq<InputView>,
}

impl View for Payload {
    type V = PayloadView;

    open spec fn view(&self) -> PayloadView {
        PayloadView {
            binary: self.binary@,
            args: texts(self.args@),
            cwd: self.cwd@,
            inputs: input_views(self.inputs@),
        }
    }
}

/// What is run once an input file has been uploaded. A job in a container gets the file from the
/// worker; any other fetches it by a script of its own, in which the arguments stand as the line
/// `args_line`.
pub open spec fn uploaded(
    payload: PayloadView,
    args_line: Seq<char>,
    in_container: bool,
    file_id: Seq<char>,
    filename: Seq<char>,
) -> PayloadView {
    if in_container {
        PayloadView {
            inputs: payload.inputs.push(
                InputView {
                    file_id,
                    original_name: filename,
                    is_executable: false,
                    is_archive: names_archive(filename),
                },
            ),
            ..payload
        }
    } else {
        PayloadView {
            binary: "/bin/bash"@,
            args: seq!["-c"@, upload_script(file_id, filename, payload.binary, args_line)],
            cwd: "/tmp"@,
            ..payload
        }
    }
}

pub fn wrap_upload(
    payload: Payload,
    args_line: &str,
    in_container: bool,
    file_id: &str,
    filename: &str,
) -> (r: Payload)
    ensures
        r@ == uploaded(payload@, args_line@, in_container, file_id@, filename@),
{
    if in_container {
        let mut inputs: Vec<JobInput> = payload.inputs;
        let ghost before = inputs@;
        let added: JobInput = JobInput {
            file_id: file_id.to_string(),
            original_name: filename.to_string(),
            is_executable: false,
            is_archive: is_archive(filename),
        };
        let ghost last = added@;
        inputs.push(added);
        assert(input_views(inputs@) =~= input_views(before).push(last));
        Payload { binary: payload.binary, args: payload.args, cwd: payload.cwd, inputs }
    } else {
        let mut script: String = SCRIPT_START.to_string();
        script.append("/tmp/veloce_work_$RANDOM");
        script.append(SCRIPT_FETCH);
        script.append(file_id);
        script.append(SCRIPT_NAME);
        script.append(filename);
        script.append(SCRIPT_UNPACK);
        script.append(&payload.binary);
        script.append(" ");
        script.append(args_line);
        script.append(SCRIPT_RETURN);
        let mut args: Vec<String> = Vec::new();
        args.push("-c".to_string());
        args.push(script);
        assert(texts(args@) =~= seq![
            "-c"@,
            upload_script(file_id@, filename@, payload.binary@, args_line@),
        ]);
        Payload {
            binary: "/bin/bash".to_string(),
            args,
            cwd: "/tmp".to_string(),
            inputs: payload.inputs,
        }
    }
}

/// What is run once an input file has been uploaded.
pub fn with_upload(payload: Payload, in_container: bool, file_id: &str, filename: &str) -> (r:
    Payload)
    ensures
        r@ == uploaded(
            payload@,
            shell_join_of(payload@.args),
            in_container,
            file_id@,
            filename@,
        ),
{
    let args_line: String = shell_join(&payload.args);
    wrap_upload(payload, &args_line, in_container, file_id, filename)
}

/// What is to be run, before a file is added to it, where `words` are the words of the command.
pub open spec fn payload_for(form: FormView, words: Seq<Seq<char>>) -> PayloadView {
    PayloadView {
        binary: form.binary,
        args: args_of(words, form.binary),
        cwd: cwd_or_scratch(form.cwd),
        inputs: Seq::empty(),
    }
}

pub fn payload_from(form: &SubmitForm, words: Vec<String>) -> (r: Payload)
    ensures
        r@ == payload_for(form@, texts(words@)),
{
    let inputs: Vec<JobInput> = Vec::new();
    assert(input_views(inputs@) =~= Seq::<InputView>::empty());
    Payload {
        binary: form.binary.clone(),
        args: strip_program(words, &form.binary),
        cwd: final_cwd(&form.cwd),
        inputs,
    }
}

/// What is to be run, before a file is added to it.
pub fn payload_of(form: &SubmitForm) -> (r: Payload)
    ensures
        r@ == payload_for(form@, command_words(form.args@)),
{
    payload_from(form, split_command(&form.args))
}

/// What became of an upload: the number of the file, or what is said of the failure. `status` is
/// missing if there was no answer.
pub open spec fn upload_answer(status: Option<u16>, file_id: Seq<char>) -> Result<
    Seq<char>,
    Seq<char>,
> {
    match status {
        None => Err("Upload network error"@),
        Some(status) => if !is_ok(status) {
            Err("Upload failed: "@ + decimal(status as nat))
        } else if file_id.len() == 0 {
            Err("Upload failed: No File ID returned"@)
        } else {
            Ok(file_id)
        },
    }
}

pub fn upload_result(status: Option<u16>, file_id: String) -> (r: Result<String, String>)
    ensures
        match upload_answer(status, file_id@) {
            Ok(id) => r is Ok && r->Ok_0@ == id,
            Err(text) => r is Err && r->Err_0@ == text,
        },
{
    match status {
        None => Err("Upload network error".to_string()),
        Some(status) => if !ok(status) {
            let mut r: String = "Upload failed: ".to_string();
            r.append(&decimal_u32(status as u32));
            Err(r)
        } else if file_id.as_str().is_empty() {
            Err("Upload failed: No File ID returned".to_string())
        } else {
            Ok(file_id)
        },
    }
}

/// Where the user is taken after a job has been submitted, or what is said if that cannot be.
pub enum Submitted {
    GoTo(String),
    Say(String),
}

pub open spec fn job_address(id: Seq<char>) -> Seq<char> {
    "/jobs/"@ + id
}

/// The name under which a new job is found, by the fields of the answer.
pub open spec fn submitted_id(federated: FieldView, job: FieldView, base: FieldView) -> Option<
    Seq<char>,
> {
    match federated {
        FieldView::Text(id) => Some(id),
        _ => match number_in(job, base) {
            Some(id) => Some(decimal(id as nat)),
            None => None,
        },
    }
}

/// The name of a new job, from the fields of the answer.
pub fn submitted_name(federated: JsonField, number: Option<u64>) -> (r: Option<String>)
    ensures
        match federated@ {
            FieldView::Text(id) => r is Some && r->0@ == id,
            _ => match number {
                Some(id) => r is Some && r->0@ == decimal(id as nat),
                None => r is None,
            },
        },
{
    match federated {
        JsonField::Text(id) => Some(id),
        _ => match number {
            Some(id) => Some(decimal_u64(id)),
            None => None,
        },
    }
}

/// What comes of a submission, by the status of the answer, if there was one, and the name of the
/// job, if the answer gives one.
pub open spec fn submission(status: Option<u16>, id: Option<Seq<char>>) -> (bool, Seq<char>) {
    match status {
        None => (false, "Network Error"@),
        Some(status) => if !is_ok(status) {
            (false, "Error: "@ + decimal(status as nat))
        } else {
            match id {
                Some(id) => (true, job_address(id)),
                None => (
                    false,
                    "Job submitted, but response did not include a job ID (HTTP "@ + decimal(
                        status as nat,
                    ) + ")."@,
                ),
            }
        },
    }
}

pub open spec fn submitted_view(s: Submitted) -> (bool, Seq<char>) {
    match s {
        Submitted::GoTo(path) => (true, path@),
        Submitted::Say(text) => (false, text@),
    }
}

pub fn submission_result(status: Option<u16>, id: Option<String>) -> (r: Submitted)
    ensures
        submitted_view(r) == submission(
            status,
            match id {
                Some(id) => Some(id@),
                None => None,
            },
        ),
{
    match status {
        None => Submitted::Say("Network Error".to_string()),
        Some(status) => if !ok(status) {
            let mut text: String = "Error: ".to_string();
            text.append(&decimal_u32(status as u32));
            Submitted::Say(text)
        } else {
            match id {
                Some(id) => {
                    let mut path: String = "/jobs/".to_string();
                    path.append(&id);
                    Submitted::GoTo(path)
                },
                None => {
                    let mut text: String =
                        "Job submitted, but response did not include a job ID (HTTP ".to_string();
                    text.append(&decimal_u32(status as u32));
                    text.append(").");
                    Submitted::Say(text)
                },
            }
        },
    }
}

/// What comes of submitting a job.
pub fn job_submitted(status: Option<u16>, body: &str) -> (r: Submitted)
    ensures
        submitted_view(r) == submission(
            status,
            submitted_id(
                json_field_of(body@, "federated_id"@),
                json_field_of(body@, "job_id"@),
                json_field_of(body@, "base_job_id"@),
            ),
        ),
{
    submission_result(status, submitted_name(json_field(body, "federated_id"), new_job_id(body)))
}

/// What comes of submitting a workflow.
pub fn workflow_submitted(status: Option<u16>, body: &str) -> (r: Submitted)
    ensures
        submitted_view(r) == submission(
            status,
            submitted_id(
                FieldView::Missing,
                json_field_of(body@, "job_id"@),
                json_field_of(body@, "base_job_id"@),
            ),
        ),
{
    submission_result(status, submitted_name(JsonField::Missing, new_job_id(body)))
}

/// The line below the name of a card.
pub open spec fn card_text(card: TemplateCard) -> Seq<char> {
    let versions = if card.versions@.len() == 1 {
        card.name@ + " Version "@ + card.versions@[0]@
    } else {
        card.name@ + " ("@ + decimal(card.versions@.len()) + " versions)"@
    };
    match card.availability {
        Some(availability) => versions + " · "@ + availability@,
        None => versions,
    }
}

pub fn card_description(card: &TemplateCard) -> (r: String)
    ensures
        r@ == card_text(*card),
{
    let mut r: String = card.name.clone();
    if card.versions.len() == 1 {
        r.append(" Version ");
        r.append(&card.versions[0]);
    } else {
        r.append(" (");
        r.append(&crate::numbers::decimal_usize(card.versions.len()));
        r.append(" versions)");
    }
    match &card.availability {
        Some(availability) => {
            r.append(" · ");
            r.append(availability);
        },
        None => {},
    }
    r
}

/// The label of the field for a parameter.
pub fn param_label(name: &str) -> (r: String)
    ensures
        r@ == crate::text::uppercased(replaced(name@, "_"@, " "@)),
{
    proof {
        reveal_strlit("_");
    }
    crate::text::uppercase(&replace(name, "_", " "))
}

/// The license note is shown for a product whose name in lower case is this.
pub fn lowered_needs_note(lowered: &str) -> (r: bool)
    ensures
        r == has_text(lowered@, "fluent"@),
{
    crate::text::contains(lowered, "fluent")
}

/// The license note is shown for a product.
pub fn needs_license_note(product: &str) -> (r: bool)
    ensures
        r == has_text(crate::text::lowercased(product@), "fluent"@),
{
    lowered_needs_note(&crate::text::lowercase(product))
}

/// The license note is shown with a template whose first container holds such a product.
pub fn shows_license_note(containers: &Vec<ContainerAsset>, template: &str) -> (r: bool)
    ensures
        r == (match container_from(containers@, template@, None, 0) {
            Some(i) => has_text(
                crate::text::lowercased(containers@[i].manifest.solver_identity.product@),
                "fluent"@,
            ),
            None => false,
        }),
{
    match first_of_product(containers, template) {
        Some(i) => needs_license_note(&containers[i].manifest.solver_identity.product),
        None => false,
    }
}

/// How a parameter is entered.
#[derive(Debug, Clone, Copy, PartialEq, Eq, Structural)]
pub enum InputKind {
    /// One of the options is picked.
    Choice,
    Checkbox,
    Number,
    Text,
}

/// A parameter with options is picked from them; for any other the type decides.
pub open spec fn kind_of(def: ParameterDef) -> InputKind {
    if def.options is Some {
        InputKind::Choice
    } else {
        match def.param_type {
            Some(t) => if t@ == "boolean"@ {
                InputKind::Checkbox
            } else if t@ == "integer"@ {
                InputKind::Number
            } else {
                InputKind::Text
            },
            None => InputKind::Text,
        }
    }
}

pub fn input_kind(def: &ParameterDef) -> (r: InputKind)
    ensures
        r == kind_of(*def),
{
    if def.options.is_some() {
        return InputKind::Choice;
    }
    match &def.param_type {
        Some(t) => if str_eq(t, "boolean") {
            InputKind::Checkbox
        } else if str_eq(t, "integer") {
            InputKind::Number
        } else {
            InputKind::Text
        },
        None => InputKind::Text,
    }
}

/// How many tasks a job can run at once, if they can be counted.
pub fn total_slots(nodes: usize, cores: u32) -> (r: Option<u64>)
    ensures
        r == (if nodes * cores <= u64::MAX {
            Some((nodes * cores) as u64)
        } else {
            None
        }),
{
    (nodes as u64).checked_mul(cores as u64)
}

/// A large number from a field, or the value that stands for one that cannot be read.
pub fn large_number_or(text: &str, other: u64) -> (r: u64)
    ensures
        r == match parsed_u64(text@) {
            Some(value) => value,
            None => other,
        },
{
    match parse_u64(text) {
        Some(value) => value,
        None => other,
    }
}

/// A number from a field, or the value that stands for one that cannot be read.
pub fn number_or(text: &str, other: u32) -> (r: u32)
    ensures
        r == match parsed_u32(text@) {
            Some(value) => value,
            None => other,
        },
{
    match parse_u32(text) {
        Some(value) => value,
        None => other,
    }
}

/// A text is a placeholder: two braces stand at its start, and no other brace opens in it.
pub open spec fn is_placeholder(p: Seq<char>) -> bool {
    &&& p.len() >= 2
    &&& p[0] == '{' && p[1] == '{'
    &&& forall|i: int| 2 <= i < p.len() ==> #[trigger] p[i] != '{'
}

proof fn lemma_placeholder_stands_once(a: Seq<char>, p: Seq<char>, b: Seq<char>, q: Seq<char>, i: int)
    requires
        is_placeholder(p),
        !a.contains('{') && !b.contains('{'),
        q.len() >= 2 && q[0] == '{' && q[1] == '{',
        occurs_at(a + p + b, q, i),
    ensures
        i == a.len(),
        forall|k: int| 0 <= k < p.len() && k < q.len() ==> p[k] == q[k],
{
    let s = a + p + b;
    let part = s.subrange(i, i + q.len());
    assert(part[0] == s[i] && part[1] == s[i + 1]);
    if i < a.len() {
        assert(a[i] == '{');
    } else if i >= a.len() + p.len() {
        assert(b[i - a.len() - p.len()] == '{');
    } else if i > a.len() {
        let k = i - a.len();
        assert(s[i] == p[k]);
        if k + 1 < p.len() {
            assert(s[i + 1] == p[k + 1]);
        } else {
            assert(s[i + 1] == b[0]);
        }
    }
    assert forall|k: int| 0 <= k < p.len() && k < q.len() implies p[k] == q[k] by {
        assert(part[k] == s[i + k]);
    }
}

/// The one placeholder of a text is filled in; nothing else changes.
proof fn lemma_filled(a: Seq<char>, p: Seq<char>, b: Seq<char>, to: Seq<char>)
    requires
        is_placeholder(p),
        !a.contains('{') && !b.contains('{'),
    ensures
        replaced(a + p + b, p, to) == a + to + b,
{
    let s = a + p + b;
    let at = a.len() as int;
    assert(s.subrange(at, at + p.len()) =~= p);
    assert forall|i: int| 0 <= i < at implies !#[trigger] occurs_at(s, p, i) by {
        if occurs_at(s, p, i) {
            lemma_placeholder_stands_once(a, p, b, p, i);
        }
    }
    law_first_is_replaced(s, p, to, at);
    let rest = s.skip(at + p.len());
    assert(rest =~= b);
    assert(s.take(at) =~= a);
    assert forall|i: int| !#[trigger] occurs_at(b, p, i) by {
        if occurs_at(b, p, i) {
            assert(b.subrange(i, i + p.len())[0] == '{');
            assert(b[i] == '{');
        }
    }
    law_nothing_to_replace(b, p, to);
}

/// A text with one placeholder is left alone by the filling in of another.
proof fn lemma_other_left(
    a: Seq<char>,
    p: Seq<char>,
    b: Seq<char>,
    q: Seq<char>,
    to: Seq<char>,
    k: int,
)
    requires
        is_placeholder(p) && is_placeholder(q),
        !a.contains('{') && !b.contains('{'),
        0 <= k < p.len() && k < q.len() && p[k] != q[k],
    ensures
        replaced(a + p + b, q, to) == a + p + b,
{
    let s = a + p + b;
    assert forall|i: int| !#[trigger] occurs_at(s, q, i) by {
        if occurs_at(s, q, i) {
            lemma_placeholder_stands_once(a, p, b, q, i);
        }
    }
    law_nothing_to_replace(s, q, to);
}

proof fn lemma_no_brace(s: Seq<char>, q: Seq<char>, to: Seq<char>)
    requires
        !s.contains('{'),
        is_placeholder(q),
    ensures
        replaced(s, q, to) == s,
{
    assert forall|i: int| !#[trigger] occurs_at(s, q, i) by {
        if occurs_at(s, q, i) {
            assert(s.subrange(i, i + q.len())[0] == '{');
            assert(s[i] == '{');
        }
    }
    law_nothing_to_replace(s, q, to);
}

proof fn lemma_no_brace_in(a: Seq<char>, to: Seq<char>, b: Seq<char>)
    requires
        !a.contains('{') && !to.contains('{') && !b.contains('{'),
    ensures
        !(a + to + b).contains('{'),
{
    let s = a + to + b;
    if s.contains('{') {
        let i = choose|i: int| 0 <= i < s.len() && s[i] == '{';
        if i < a.len() {
            assert(a[i] == '{');
        } else if i < a.len() + to.len() {
            assert(to[i - a.len()] == '{');
        } else {
            assert(b[i - a.len() - to.len()] == '{');
        }
    }
}

proof fn lemma_number_has_no_brace(n: nat)
    ensures
        !decimal(n).contains('{'),
{
    crate::numbers::lemma_decimal_digits(n);
    if decimal(n).contains('{') {
        let i = choose|i: int| 0 <= i < decimal(n).len() && decimal(n)[i] == '{';
        assert(crate::numbers::is_digit(decimal(n)[i]));
    }
}

proof fn lemma_job_placeholders()
    ensures
        is_placeholder("{{executable}}"@) && "{{executable}}"@.len() == 14,
        is_placeholder("{{entrypoint}}"@) && "{{entrypoint}}"@.len() == 14,
        is_placeholder("{{input_file}}"@) && "{{input_file}}"@.len() == 14,
        is_placeholder("{{custom_args}}"@) && "{{custom_args}}"@.len() == 15,
        is_placeholder("{{memory}}"@) && "{{memory}}"@.len() == 10,
        is_placeholder("{{cpus}}"@) && "{{cpus}}"@.len() == 8,
        "{{executable}}"@[2] == 'e' && "{{executable}}"@[3] == 'x',
        "{{entrypoint}}"@[2] == 'e' && "{{entrypoint}}"@[3] == 'n',
        "{{input_file}}"@[2] == 'i',
        "{{custom_args}}"@[2] == 'c' && "{{custom_args}}"@[3] == 'u',
        "{{memory}}"@[2] == 'm',
        "{{cpus}}"@[2] == 'c' && "{{cpus}}"@[3] == 'p',
        !"none"@.contains('{'),
        ""@.len() == 0,
{
    reveal_strlit("{{executable}}");
    reveal_strlit("{{entrypoint}}");
    reveal_strlit("{{input_file}}");
    reveal_strlit("{{custom_args}}");
    reveal_strlit("{{memory}}");
    reveal_strlit("{{cpus}}");
    reveal_strlit("none");
    reveal_strlit("");
}

/// Each placeholder of a command template is filled in with what it stands for: the program, the
/// input file or `none`, the memory, the cores; what stands around it stays. Arguments of the
/// user's own are left out.
pub proof fn law_placeholders_are_filled_in(
    a: Seq<char>,
    b: Seq<char>,
    binary: Seq<char>,
    input: Seq<char>,
    memory: nat,
    cores: nat,
)
    requires
        !a.contains('{') && !b.contains('{'),
        !binary.contains('{') && !input.contains('{'),
    ensures
        with_job(a + "{{executable}}"@ + b, binary, input, memory, cores) == a + binary + b,
        with_job(a + "{{entrypoint}}"@ + b, binary, input, memory, cores) == a + binary + b,
        input.len() > 0 ==> with_job(a + "{{input_file}}"@ + b, binary, input, memory, cores) == a
            + input + b,
        input.len() == 0 ==> with_job(a + "{{input_file}}"@ + b, binary, input, memory, cores) == a
            + "none"@ + b,
        with_job(a + "{{custom_args}}"@ + b, binary, input, memory, cores) == a + b,
        with_job(a + "{{memory}}"@ + b, binary, input, memory, cores) == a + decimal(memory) + b,
        with_job(a + "{{cpus}}"@ + b, binary, input, memory, cores) == a + decimal(cores) + b,
{
    lemma_job_placeholders();
    lemma_number_has_no_brace(memory);
    lemma_number_has_no_brace(cores);
    let given = if input.len() == 0 {
        "none"@
    } else {
        input
    };
    lemma_filled_job(a, "{{executable}}"@, b, binary, binary, input, memory, cores);
    lemma_filled_job(a, "{{entrypoint}}"@, b, binary, binary, input, memory, cores);
    lemma_filled_job(a, "{{input_file}}"@, b, given, binary, input, memory, cores);
    lemma_filled_job(a, "{{custom_args}}"@, b, ""@, binary, input, memory, cores);
    lemma_filled_job(a, "{{memory}}"@, b, decimal(memory), binary, input, memory, cores);
    lemma_filled_job(a, "{{cpus}}"@, b, decimal(cores), binary, input, memory, cores);
    assert(a + ""@ + b =~= a + b);
}

proof fn lemma_replaced_step(
    s: Seq<char>,
    a: Seq<char>,
    p: Seq<char>,
    b: Seq<char>,
    value: Seq<char>,
    q: Seq<char>,
    to: Seq<char>,
    k: int,
)
    requires
        is_placeholder(p) && is_placeholder(q),
        !a.contains('{') && !b.contains('{') && !value.contains('{'),
        s == a + p + b || s == a + value + b,
        p == q ==> to == value,
        p != q ==> 0 <= k < p.len() && k < q.len() && p[k] != q[k],
    ensures
        s == a + value + b ==> replaced(s, q, to) == a + value + b,
        s == a + p + b && p == q ==> replaced(s, q, to) == a + value + b,
        s == a + p + b && p != q ==> replaced(s, q, to) == a + p + b,
{
    if s == a + value + b {
        lemma_no_brace_in(a, value, b);
        lemma_no_brace(s, q, to);
    }
    if s == a + p + b {
        if p == q {
            lemma_filled(a, p, b, value);
        } else {
            lemma_other_left(a, p, b, q, to, k);
        }
    }
}

#[verifier::rlimit(40)]
proof fn lemma_filled_job(
    a: Seq<char>,
    p: Seq<char>,
    b: Seq<char>,
    value: Seq<char>,
    binary: Seq<char>,
    input: Seq<char>,
    memory: nat,
    cores: nat,
)
    requires
        !a.contains('{') && !b.contains('{') && !value.contains('{'),
        ({
            let given = if input.len() == 0 {
                "none"@
            } else {
                input
            };
            ||| p == "{{executable}}"@ && value == binary
            ||| p == "{{entrypoint}}"@ && value == binary
            ||| p == "{{input_file}}"@ && value == given
            ||| p == "{{custom_args}}"@ && value == ""@
            ||| p == "{{memory}}"@ && value == decimal(memory)
            ||| p == "{{cpus}}"@ && value == decimal(cores)
        }),
    ensures
        with_job(a + p + b, binary, input, memory, cores) == a + value + b,
{
    lemma_job_placeholders();
    let given = if input.len() == 0 {
        "none"@
    } else {
        input
    };
    let k1 = if p == "{{entrypoint}}"@ {
        3int
    } else {
        2int
    };
    let k2 = if p == "{{executable}}"@ {
        3int
    } else {
        2int
    };
    let k4 = if p == "{{cpus}}"@ {
        3int
    } else {
        2int
    };
    let k6 = if p == "{{custom_args}}"@ {
        3int
    } else {
        2int
    };
    let s0 = a + p + b;
    let s1 = replaced(s0, "{{executable}}"@, binary);
    lemma_replaced_step(s0, a, p, b, value, "{{executable}}"@, binary, k1);
    let s2 = replaced(s1, "{{entrypoint}}"@, binary);
    lemma_replaced_step(s1, a, p, b, value, "{{entrypoint}}"@, binary, k2);
    let s3 = replaced(s2, "{{input_file}}"@, given);
    lemma_replaced_step(s2, a, p, b, value, "{{input_file}}"@, given, 2);
    let s4 = replaced(s3, "{{custom_args}}"@, ""@);
    lemma_replaced_step(s3, a, p, b, value, "{{custom_args}}"@, ""@, k4);
    let s5 = replaced(s4, "{{memory}}"@, decimal(memory));
    lemma_replaced_step(s4, a, p, b, value, "{{memory}}"@, decimal(memory), 2);
    lemma_replaced_step(s5, a, p, b, value, "{{cpus}}"@, decimal(cores), k6);
}

/// The placeholder of a parameter is filled in with the words of its value.
pub proof fn law_parameters_are_filled_in(
    a: Seq<char>,
    b: Seq<char>,
    defs: Seq<(String, ParameterDef)>,
    params: Map<Seq<char>, Seq<char>>,
)
    requires
        defs.len() == 1,
        !a.contains('{') && !b.contains('{'),
        !defs[0].0@.contains('{'),
    ensures
        with_params(a + "{{"@ + defs[0].0@ + "}}"@ + b, defs, params) == a + param_words(
            defs[0].1,
            param_value(params, defs[0].0@, defs[0].1),
        ) + b,
{
    reveal_strlit("{{");
    reveal_strlit("}}");
    let name = defs[0].0@;
    let p = placeholder(name);
    let command = a + "{{"@ + name + "}}"@ + b;
    assert(command =~= a + p + b);
    assert forall|i: int| 2 <= i < p.len() implies #[trigger] p[i] != '{' by {
        if i < 2 + name.len() {
            assert(p[i] == name[i - 2]);
        }
    }
    assert(with_params(command, defs.drop_last(), params) == command);
    lemma_filled(a, p, b, param_words(defs[0].1, param_value(params, name, defs[0].1)));
}

/// The value of a parameter is the one that was set, and else its default. A switch that is on
/// gives its flag, and nothing else; any other value follows its flag, or stands alone where there
/// is none; and `none` gives nothing.
pub proof fn law_parameters_come_to_words(
    params: Map<Seq<char>, Seq<char>>,
    name: Seq<char>,
    def: ParameterDef,
    value: Seq<char>,
)
    ensures
        params.contains_key(name) ==> param_value(params, name, def) == params[name],
        !params.contains_key(name) && def.default is Some ==> param_value(params, name, def)
            == def.default->0@,
        !params.contains_key(name) && def.default is None ==> param_value(params, name, def).len()
            == 0,
        ({
            let switch = def.param_type is Some && def.param_type->0@ == "boolean"@;
            let words = param_words(def, value);
            &&& switch && value == "true"@ && def.flag is Some ==> words == def.flag->0@
            &&& switch && (value != "true"@ || def.flag is None) ==> words.len() == 0
            &&& !switch && value == "none"@ ==> words.len() == 0
            &&& value.len() == 0 ==> words.len() == 0
            &&& !switch && value != "none"@ && def.flag is None ==> words == value
            &&& !switch && value != "none"@ && value.len() > 0 && def.flag is Some ==> words
                == def.flag->0@ + seq![' '] + value
        }),
{
    reveal_strlit("");
    reveal_strlit(" ");
    reveal_strlit("true");
    assert(" "@ =~= seq![' ']);
    assert("true"@.len() == 4);
}

/// Picking a template of the cluster takes over what its container says: the program, the command,
/// the image and the defaults of its parameters; a file picked before is dropped.
pub proof fn law_picking_a_template_takes_over_its_container(
    form: FormView,
    containers: Seq<ContainerAsset>,
    i: int,
)
    requires
        form.filled != Some((form.template, form.version)),
        form.template != "General"@ && form.template != "CWL Workflow"@,
        container_for(containers, form.template, form.version) == Some(i),
    ensures
        ({
            let c = containers[i];
            let new = filled_in(form, containers);
            &&& new.binary == c.manifest.execution.entrypoint@
            &&& new.command_template == c.manifest.execution.command_template@
            &&& new.image_uri is Some && has_prefix(new.image_uri->0, "veloce://"@)
            &&& new.image_uri is Some && has_suffix(new.image_uri->0, c.id@)
            &&& new.image_uri is Some && new.image_uri->0.len() == 9 + c.id@.len()
            &&& new.cwd == "/scratch"@
            &&& new.params == defaults(c.manifest.parameter_mapping@)
            &&& new.version == c.manifest.solver_identity.version@
            &&& new.input_file.len() == 0
            &&& new.template == form.template
        }),
{
    reveal_strlit("veloce://");
    reveal_strlit("");
    let id = containers[i].id@;
    lemma_ends_with("veloce://"@, id);
    assert(("veloce://"@ + id).subrange(0, 9) =~= "veloce://"@);
}

/// Going back to a manual template drops the image and the command; a form that was filled in for
/// the choice that stands is left alone.
pub proof fn law_manual_templates_start_empty(form: FormView, containers: Seq<ContainerAsset>)
    ensures
        form.filled == Some((form.template, form.version)) ==> filled_in(form, containers) == form,
        form.filled != Some((form.template, form.version)) && (form.template == "General"@
            || form.template == "CWL Workflow"@) ==> {
            let new = filled_in(form, containers);
            &&& new.image_uri is None
            &&& new.binary.len() == 0
            &&& new.args.len() == 0
            &&& new.input_file.len() == 0
            &&& new.cwd == form.cwd
            &&& form.template == "General"@ ==> new.cwl_content.len() == 0
                && new.command_template.len() == 0
            &&& form.template == "CWL Workflow"@ ==> new.cwl_content == form.cwl_content
        },
{
    reveal_strlit("");
    reveal_strlit("General");
    reveal_strlit("CWL Workflow");
    assert("General"@.len() == 7 && "CWL Workflow"@.len() == 12);
}

/// A number typed as the indices of an array stands for itself, and two numbers with a dash between
/// them for all from the first to the second.
pub proof fn law_typed_indices_are_read(n: u32, m: u32)
    ensures
        array_indices(decimal(n as nat)) == Some(seq![n]),
        n <= m ==> (array_indices(decimal(n as nat) + seq!['-'] + decimal(m as nat)) matches Some(
            all,
        ) && all.len() == m - n + 1 && forall|i: int|
            0 <= i < all.len() ==> #[trigger] all[i] == n + i),
        n > m ==> array_indices(decimal(n as nat) + seq!['-'] + decimal(m as nat)) is None,
{
    let a = decimal(n as nat);
    let b = decimal(m as nat);
    lemma_number_is_plain(n as nat);
    lemma_number_is_plain(m as nat);
    law_split_of_one_piece(a, ',');
    assert(indices_of(seq![a]) =~= seq![n]) by {
        assert(seq![a].drop_last() =~= Seq::<Seq<char>>::empty());
        assert(indices_of(seq![a].drop_last()) =~= Seq::<u32>::empty());
    }
    let t = a + seq!['-'] + b;
    assert(t =~= a.push('-') + b);
    assert(!t.contains(',')) by {
        if t.contains(',') {
            let i = choose|i: int| 0 <= i < t.len() && t[i] == ',';
            if i < a.len() {
                assert(a[i] == ',');
            } else if i > a.len() {
                assert(b[i - a.len() - 1] == ',');
            }
        }
    }
    law_split_of_one_piece(t, ',');
    law_split_of_one_piece(a, '-');
    law_split_at_the_end(a, '-', b);
    assert(t[a.len() as int] == '-');
    assert(indices_of(seq![t]) =~= number_range(n, m)) by {
        assert(seq![t].drop_last() =~= Seq::<Seq<char>>::empty());
        assert(indices_of(seq![t].drop_last()) =~= Seq::<u32>::empty());
    }
}

proof fn lemma_number_is_plain(n: nat)
    ensures
        !decimal(n).contains(','),
        !decimal(n).contains('-'),
        decimal(n).len() > 0,
        trimmed(decimal(n)) == decimal(n),
        n <= u32::MAX ==> parsed_u32(decimal(n)) == Some(n as u32),
{
    crate::numbers::lemma_decimal_digits(n);
    crate::numbers::law_read_undoes_decimal(n);
    let d = decimal(n);
    assert(crate::numbers::is_digit(d[0]) && crate::numbers::is_digit(d[d.len() - 1]));
    lemma_trimmed_stays(d);
    if d.contains(',') {
        let i = choose|i: int| 0 <= i < d.len() && d[i] == ',';
        assert(crate::numbers::is_digit(d[i]));
    }
    if d.contains('-') {
        let i = choose|i: int| 0 <= i < d.len() && d[i] == '-';
        assert(crate::numbers::is_digit(d[i]));
    }
}

/// What is typed behind one more comma adds its numbers behind those before; nothing typed stands
/// for no array.
pub proof fn law_typed_indices_add_up(s: Seq<char>, t: Seq<char>)
    requires
        !t.contains(','),
        array_indices(s) is Some,
    ensures
        array_indices(Seq::<char>::empty()) is None,
        array_indices(s + seq![','] + t) == Some(
            array_indices(s)->0 + (match array_indices(t) {
                Some(more) => more,
                None => Seq::<u32>::empty(),
            }),
        ),
{
    let all = s + seq![','] + t;
    assert(all =~= s.push(',') + t);
    law_split_at_the_end(s, ',', t);
    law_split_of_one_piece(t, ',');
    let p = split_on(s, ',');
    assert(p.push(t).drop_last() =~= p);
    assert(seq![t].drop_last() =~= Seq::<Seq<char>>::empty());
    assert(indices_of(seq![t].drop_last()) =~= Seq::<u32>::empty());
    assert(indices_of(seq![t]) =~= indices_in(t));
    if array_indices(t) is None {
        if t.len() == 0 {
            assert(t =~= Seq::<char>::empty());
            lemma_nothing_typed();
        }
        assert(indices_of(p) + indices_in(t) =~= indices_of(p));
        assert(indices_of(p) + Seq::<u32>::empty() =~= indices_of(p));
    }
}

proof fn lemma_nothing_typed()
    ensures
        indices_in(Seq::<char>::empty()).len() == 0,
{
    let none = Seq::<char>::empty();
    assert(!none.contains('-'));
    assert(trimmed(none) == none);
}

/// A submission that was granted leads to the page of the new job, if the answer names it; anything
/// else is told.
pub proof fn law_granted_submissions_lead_to_the_job(status: Option<u16>, id: Option<Seq<char>>)
    ensures
        submission(status, id).0 <==> status is Some && 200 <= status->0 <= 299 && id is Some,
        submission(status, id).0 ==> submission(status, id).1 == "/jobs/"@ + id->0,
        status is None ==> submission(status, id).1 == "Network Error"@,
        status is Some && !(200 <= status->0 <= 299) ==> submission(status, id).1 == "Error: "@
            + decimal(status->0 as nat),
{
}

/// A job that other clusters may run goes by the name that they know it by; any other goes by its
/// number.
pub proof fn law_new_jobs_go_by_name_or_number(
    federated: FieldView,
    job: FieldView,
    base: FieldView,
    n: u64,
)
    ensures
        federated matches FieldView::Text(id) ==> submitted_id(federated, job, base) == Some(id),
        !(federated is Text) && job == FieldView::Number(Some(n)) ==> submitted_id(
            federated,
            job,
            base,
        ) == Some(decimal(n as nat)),
        !(federated is Text) && job is Missing && base == FieldView::Number(Some(n))
            ==> submitted_id(federated, job, base) == Some(decimal(n as nat)),
        !(federated is Text) && job is Missing && base is Missing ==> submitted_id(
            federated,
            job,
            base,
        ) is None,
{
}

/// A parameter with options is chosen from them; a switch is a box to tick, a whole number is typed
/// as a number, and anything else as text.
pub proof fn law_parameters_are_asked_for_by_kind(def: ParameterDef)
    ensures
        kind_of(def) == InputKind::Choice <==> def.options is Some,
        def.options is None ==> {
            &&& kind_of(def) == InputKind::Checkbox <==> def.param_type is Some
                && def.param_type->0@ == "boolean"@
            &&& kind_of(def) == InputKind::Number <==> def.param_type is Some && def.param_type->0@
                == "integer"@
        },
{
    reveal_strlit("boolean");
    reveal_strlit("integer");
    assert("boolean"@.len() == 7);
    assert("integer"@.len() == 7);
    assert("boolean"@[0] != "integer"@[0]);
}

/// A product is offered with its version where there is one, and with how many there are otherwise.
pub proof fn law_cards_tell_their_versions(card: TemplateCard)
    requires
        card.availability is None,
    ensures
        card.versions@.len() == 1 ==> card_text(card) == card.name@ + " Version "@
            + card.versions@[0]@,
        card.versions@.len() != 1 ==> card_text(card) == card.name@ + " ("@ + decimal(
            card.versions@.len(),
        ) + " versions)"@,
{
}

/// What is typed into the form is read from the field that it was typed into.
pub proof fn law_the_form_is_read_by_name(f: SubmitForm, p: Payload, i: JobInput)
    ensures
        f@.template == f.template@ && f@.version == f.version@ && f@.binary == f.binary@,
        f@.args == f.args@ && f@.command_template == f.command_template@ && f@.cwd == f.cwd@,
        f@.image_uri == optional_text(f.image_uri) && f@.cwl_content == f.cwl_content@,
        f@.input_file == f.input_file@ && f@.params == f.params@,
        p@.binary == p.binary@ && p@.args == texts(p.args@) && p@.cwd == p.cwd@,
        i@.file_id == i.file_id@ && i@.original_name == i.original_name@,
        i@.is_executable == i.is_executable && i@.is_archive == i.is_archive,
{
}

proof fn lemma_first_card(cards: Seq<TemplateCard>, name: Seq<char>, from: int, i: int)
    requires
        0 <= from <= i <= cards.len(),
        i < cards.len() ==> cards[i].name@ == name,
        forall|k: int| from <= k < i ==> (#[trigger] cards[k]).name@ != name,
    ensures
        i < cards.len() ==> card_from(cards, name, from) == Some(i),
        i == cards.len() ==> card_from(cards, name, from) is None,
    decreases i - from,
{
    if from < i {
        assert(cards[from].name@ != name);
        lemma_first_card(cards, name, from + 1, i);
    }
}

/// The two templates that are filled in by hand stay picked, whatever is offered.
pub proof fn law_templates_filled_in_by_hand_stay(cards: Seq<TemplateCard>, version: Seq<char>)
    ensures
        settled(cards, "General"@, version) == ("General"@, version),
        settled(cards, "CWL Workflow"@, version) == ("CWL Workflow"@, version),
{
}

/// An offered template stays picked, with the version that was picked where that one is offered and
/// with the card's first version where it is not.
pub proof fn law_offered_templates_stay(
    cards: Seq<TemplateCard>,
    i: int,
    version: Seq<char>,
)
    requires
        0 <= i < cards.len(),
        cards[i].name@ != "General"@ && cards[i].name@ != "CWL Workflow"@,
        forall|k: int| 0 <= k < i ==> (#[trigger] cards[k]).name@ != cards[i].name@,
    ensures
        ({
            let (t, v) = settled(cards, cards[i].name@, version);
            &&& t == cards[i].name@
            &&& texts(cards[i].versions@).contains(version) ==> v == version
            &&& !texts(cards[i].versions@).contains(version) ==> v == cards[i].first_version@
        }),
{
    lemma_first_card(cards, cards[i].name@, 0, i);
}

/// A template that is not offered gives way to the first one that is, and to the general one where
/// nothing is offered.
pub proof fn law_missing_templates_give_way(
    cards: Seq<TemplateCard>,
    template: Seq<char>,
    version: Seq<char>,
)
    requires
        template != "General"@ && template != "CWL Workflow"@,
        forall|k: int| 0 <= k < cards.len() ==> (#[trigger] cards[k]).name@ != template,
    ensures
        ({
            let (t, v) = settled(cards, template, version);
            &&& cards.len() > 0 ==> t == cards[0].name@ && v == cards[0].first_version@
            &&& cards.len() == 0 ==> t == "General"@ && v.len() == 0
        }),
{
    reveal_strlit("");
    lemma_first_card(cards, template, 0, cards.len() as int);
}

/// What was typed for a template that is filled in by hand is sent as it was typed, and shown after
/// the program.
pub proof fn law_typed_arguments_are_sent_as_typed(
    form: FormView,
    containers: Seq<ContainerAsset>,
    memory: nat,
    cores: nat,
)
    ensures
        form.template == "General"@ || form.template == "CWL Workflow"@ ==> {
            &&& resolved(form, containers, memory, cores) == form.args
            &&& has_prefix(previewed(form), form.binary)
            &&& has_suffix(previewed(form), form.args)
            &&& previewed(form).len() == form.binary.len() + 1 + form.args.len()
            &&& previewed(form)[form.binary.len() as int] == ' '
        },
        form.template != "General"@ && form.template != "CWL Workflow"@ ==> previewed(form)
            == form.args,
{
    reveal_strlit(" ");
    let all = form.binary + " "@ + form.args;
    assert(all.subrange(0, form.binary.len() as int) =~= form.binary);
    lemma_ends_with(form.binary + " "@, form.args);
}

/// A parameter starts out with its default: that of the last one of its name that has one. One
/// without a default starts out without a value.
pub proof fn law_parameters_start_with_their_defaults(
    params: Seq<(String, ParameterDef)>,
    name: Seq<char>,
    i: int,
)
    requires
        0 <= i < params.len(),
        params[i].0@ == name,
        params[i].1.default is Some,
        forall|k: int|
            i < k < params.len() ==> (#[trigger] params[k]).0@ != name || params[k].1.default is None,
    ensures
        defaults(params).dom().contains(name),
        defaults(params)[name] == params[i].1.default->0@,
    decreases params.len(),
{
    let front = params.drop_last();
    if i < params.len() - 1 {
        assert(params[params.len() - 1].0@ != name || params[params.len() - 1].1.default is None);
        assert forall|k: int| i < k < front.len() implies (#[trigger] front[k]).0@ != name
            || front[k].1.default is None by {
            assert(front[k] == params[k]);
        }
        law_parameters_start_with_their_defaults(front, name, i);
    }
}

/// Nothing else has a value at the start.
pub proof fn law_other_parameters_start_empty(
    params: Seq<(String, ParameterDef)>,
    name: Seq<char>,
)
    requires
        forall|k: int|
            0 <= k < params.len() ==> (#[trigger] params[k]).0@ != name || params[k].1.default is None,
    ensures
        !defaults(params).dom().contains(name),
    decreases params.len(),
{
    if params.len() > 0 {
        let front = params.drop_last();
        assert(params[params.len() - 1].0@ != name || params[params.len() - 1].1.default is None);
        assert forall|k: int| 0 <= k < front.len() implies (#[trigger] front[k]).0@ != name
            || front[k].1.default is None by {
            assert(front[k] == params[k]);
        }
        law_other_parameters_start_empty(front, name);
    }
}

} // verus!
