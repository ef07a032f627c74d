//! What is sent when a job is submitted, and in which steps.

use vstd::prelude::*;

use crate::json::file_id_in;
use crate::json::json_field_of;
use crate::json::json_string_of;
use crate::json::uploaded_file_id;
use crate::numbers::decimal;
use crate::shell::command_words;
use crate::shell::shell_join_of;
use crate::text::has_suffix;
use crate::text::has_text;
use crate::text::lemma_ends_with;
use crate::text::lemma_holds;
use crate::text::optional_text;
use crate::text::str_eq;
use crate::text::texts;
use crate::text::trimmed;
use crate::web::submit::array_indices;
use crate::web::submit::cwd_or_scratch;
use crate::web::submit::final_cwd;
use crate::web::submit::input_views;
use crate::web::submit::parse_array_indices;
use crate::web::submit::payload_for;
use crate::web::submit::payload_of;
use crate::web::submit::trimmed_or_none;
use crate::web::submit::upload_answer;
use crate::web::submit::upload_result;
use crate::web::submit::upload_script;
use crate::web::submit::uploaded;
use crate::web::submit::with_upload;
use crate::web::submit::FormView;
use crate::web::submit::InputView;
use crate::web::submit::JobInput;
use crate::web::submit::Payload;
use crate::web::submit::PayloadView;
use crate::web::submit::SubmitForm;
use crate::web::submit::SCRIPT_FETCH;
use crate::web::submit::SCRIPT_NAME;
use crate::web::submit::SCRIPT_RETURN;
use crate::web::submit::SCRIPT_START;
use crate::web::submit::SCRIPT_UNPACK;

verus! {

/// The fields of the form that every template has.
pub struct JobFields {
    pub job_name: String,
    pub job_comment: String,
    pub nodes: usize,
    pub cores: u32,
    pub memory: u64,
    pub walltime: u64,
    pub priority: u32,
    pub user_id: String,
    pub array_indices: String,
}

pub ghost struct JobFieldsView {
    pub job_name: Seq<char>,
    pub job_comment: Seq<char>,
    pub nodes: usize,
    pub cores: u32,
    pub memory: u64,
    pub walltime: u64,
    pub priority: u32,
    pub user_id: Seq<char>,
    pub array_indices: Seq<char>,
}

impl View for JobFields {
    type V = JobFieldsView;

    open spec fn view(&self) -> JobFieldsView {
        JobFieldsView {
            job_name: self.job_name@,
            job_comment: self.job_comment@,
            nodes: self.nodes,
            cores: self.cores,
            memory: self.memory,
            walltime: self.walltime,
            priority: self.priority,
            user_id: self.user_id@,
            array_indices: self.array_indices@,
        }
    }
}

/// The fields as they start out.
pub open spec fn fields_at_start(session_user: Option<Seq<char>>) -> JobFieldsView {
    JobFieldsView {
        job_name: ""@,
        job_comment: ""@,
        nodes: 1,
        cores: 1,
        memory: 1024,
        walltime: 3600,
        priority: 0,
        user_id: match session_user {
            Some(user) => user,
            None => "web_user"@,
        },
        array_indices: ""@,
    }
}

impl JobFields {
    /// The fields as they start out, for the user of the session, if there is one.
    pub fn new(session_user: Option<String>) -> (r: JobFields)
        ensures
            r@ == fields_at_start(optional_text(session_user)),
            r@ == (JobFieldsView {
                job_name: ""@,
                job_comment: ""@,
                nodes: 1,
                cores: 1,
                memory: 1024,
                walltime: 3600,
                priority: 0,
                user_id: match optional_text(session_user) {
                    Some(user) => user,
                    None => "web_user"@,
                },
                array_indices: ""@,
            }),
    {
        JobFields {
            job_name: "".to_string(),
            job_comment: "".to_string(),
            nodes: 1,
            cores: 1,
            memory: 1024,
            walltime: 3600,
            priority: 0,
            user_id: match session_user {
                Some(user) => user,
                None => "web_user".to_string(),
            },
            array_indices: "".to_string(),
        }
    }
}

/// A request for a workflow.
pub struct WorkflowRequest {
    pub cwl_content: String,
    pub user_id: String,
    pub working_directory: String,
}

pub ghost struct WorkflowRequestView {
    pub cwl_content: Seq<char>,
    pub user_id: Seq<char>,
    pub working_directory: Seq<char>,
}

impl View for WorkflowRequest {
    type V = WorkflowRequestView;

    open spec fn view(&self) -> WorkflowRequestView {
        WorkflowRequestView {
            cwl_content: self.cwl_content@,
            user_id: self.user_id@,
            working_directory: self.working_directory@,
        }
    }
}

/// A request for a job.
pub struct JobRequest {
    pub job_name: Option<String>,
    pub job_comment: Option<String>,
    pub binary: String,
    pub args: Vec<String>,
    pub req_nodes: usize,
    pub req_cores: u32,
    pub req_memory: u64,
    pub walltime: u64,
    pub priority: u32,
    pub user_id: String,
    pub working_directory: String,
    pub array_indices: Option<Vec<u32>>,
    pub image_uri: Option<String>,
    pub inputs: Vec<JobInput>,
}

pub ghost struct JobRequestView {
    pub job_name: Option<Seq<char>>,
    pub job_comment: Option<Seq<char>>,
    pub binary: Seq<char>,
    pub args: Seq<Seq<char>>,
    pub req_nodes: usize,
    pub req_cores: u32,
    pub req_memory: u64,
    pub walltime: u64,
    pub priority: u32,
    pub user_id: Seq<char>,
    pub working_directory: Seq<char>,
    pub array_indices: Option<Seq<u32>>,
    pub image_uri: Option<Seq<char>>,
    pub inputs: Seq<InputView>,
}

impl View for JobRequest {
    type V = JobRequestView;

    open spec fn view(&self) -> JobRequestView {
        JobRequestView {
            job_name: optional_text(self.job_name),
            job_comment: optional_text(self.job_comment),
            binary: self.binary@,
            args: texts(self.args@),
            req_nodes: self.req_nodes,
            req_cores: self.req_cores,
            req_memory: self.req_memory,
            walltime: self.walltime,
            priority: self.priority,
            user_id: self.user_id@,
            working_directory: self.working_directory@,
            array_indices: match self.array_indices {
                Some(indices) => Some(indices@),
                None => None,
            },
            image_uri: optional_text(self.image_uri),
            inputs: input_views(self.inputs@),
        }
    }
}

/// A text without the spaces around it, if anything is left.
pub open spec fn said(text: Seq<char>) -> Option<Seq<char>> {
    if trimmed(text).len() > 0 {
        Some(trimmed(text))
    } else {
        None
    }
}

/// What is asked for, where `payload` is to be run.
pub open spec fn job_request(
    form: FormView,
    fields: JobFieldsView,
    payload: PayloadView,
) -> JobRequestView {
    JobRequestView {
        job_name: said(fields.job_name),
        job_comment: said(fields.job_comment),
        binary: payload.binary,
        args: payload.args,
        req_nodes: fields.nodes,
        req_cores: fields.cores,
        req_memory: fields.memory,
        walltime: fields.walltime,
        priority: fields.priority,
        user_id: fields.user_id,
        working_directory: payload.cwd,
        array_indices: array_indices(fields.array_indices),
        image_uri: form.image_uri,
        inputs: payload.inputs,
    }
}

pub fn request_of(form: &SubmitForm, fields: &JobFields, payload: Payload) -> (r: JobRequest)
    ensures
        r@ == job_request(form@, fields@, payload@),
{
    JobRequest {
        job_name: trimmed_or_none(&fields.job_name),
        job_comment: trimmed_or_none(&fields.job_comment),
        binary: payload.binary,
        args: payload.args,
        req_nodes: fields.nodes,
        req_cores: fields.cores,
        req_memory: fields.memory,
        walltime: fields.walltime,
        priority: fields.priority,
        user_id: fields.user_id.clone(),
        working_directory: payload.cwd,
        array_indices: parse_array_indices(&fields.array_indices),
        image_uri: match &form.image_uri {
            Some(uri) => Some(uri.clone()),
            None => None,
        },
        inputs: payload.inputs,
    }
}

/// What is asked for where the form holds a workflow.
pub open spec fn workflow_request(form: FormView, fields: JobFieldsView) -> WorkflowRequestView {
    WorkflowRequestView {
        cwl_content: form.cwl_content,
        user_id: fields.user_id,
        working_directory: cwd_or_scratch(form.cwd),
    }
}

pub fn workflow_of(form: &SubmitForm, fields: &JobFields) -> (r: WorkflowRequest)
    ensures
        r@ == workflow_request(form@, fields@),
{
    WorkflowRequest {
        cwl_content: form.cwl_content.clone(),
        user_id: fields.user_id.clone(),
        working_directory: final_cwd(&form.cwd),
    }
}

/// A step of a submission: something to send, or a text to show at its end.
#[allow(inconsistent_fields)]
pub enum SubmitStep {
    SendWorkflow { address: String, request: WorkflowRequest },
    Upload { address: String },
    SendJob { address: String, request: JobRequest },
    Say { text: String },
}

#[allow(inconsistent_fields)]
pub ghost enum SubmitStepView {
    SendWorkflow { address: Seq<char>, request: WorkflowRequestView },
    Upload { address: Seq<char> },
    SendJob { address: Seq<char>, request: JobRequestView },
    Say { text: Seq<char> },
}

impl View for SubmitStep {
    type V = SubmitStepView;

    open spec fn view(&self) -> SubmitStepView {
        match *self {
            SubmitStep::SendWorkflow { address, request } => SubmitStepView::SendWorkflow {
                address: address@,
                request: request@,
            },
            SubmitStep::Upload { address } => SubmitStepView::Upload { address: address@ },
            SubmitStep::SendJob { address, request } => SubmitStepView::SendJob {
                address: address@,
                request: request@,
            },
            SubmitStep::Say { text } => SubmitStepView::Say { text: text@ },
        }
    }
}

/// The step that sends a job.
pub open spec fn send_job(
    form: FormView,
    fields: JobFieldsView,
    payload: PayloadView,
) -> SubmitStepView {
    SubmitStepView::SendJob {
        address: "/api/v1/jobs"@,
        request: job_request(form, fields, payload),
    }
}

pub fn sending_job(form: &SubmitForm, fields: &JobFields, payload: Payload) -> (r: SubmitStep)
    ensures
        r@ == send_job(form@, fields@, payload@),
{
    SubmitStep::SendJob {
        address: "/api/v1/jobs".to_string(),
        request: request_of(form, fields, payload),
    }
}

/// The first step of a submission, where `words` are the words of the command. A workflow is sent
/// as it is, whatever file is picked; for a job a picked file is uploaded first.
pub open spec fn first_step(
    form: FormView,
    fields: JobFieldsView,
    words: Seq<Seq<char>>,
    file_picked: bool,
) -> SubmitStepView {
    if form.template == "CWL Workflow"@ {
        SubmitStepView::SendWorkflow {
            address: "/api/v1/jobs/cwl"@,
            request: workflow_request(form, fields),
        }
    } else if file_picked {
        SubmitStepView::Upload { address: "/api/v1/files"@ }
    } else {
        send_job(form, fields, payload_for(form, words))
    }
}

pub fn submit_step(form: &SubmitForm, fields: &JobFields, file_picked: bool) -> (r: SubmitStep)
    ensures
        r@ == first_step(form@, fields@, command_words(form.args@), file_picked),
{
    if str_eq(&form.template, "CWL Workflow") {
        SubmitStep::SendWorkflow {
            address: "/api/v1/jobs/cwl".to_string(),
            request: workflow_of(form, fields),
        }
    } else if file_picked {
        SubmitStep::Upload { address: "/api/v1/files".to_string() }
    } else {
        sending_job(form, fields, payload_of(form))
    }
}

/// The step after an upload: the job is sent with the file, or the failure is shown. `words` are
/// the words of the command and `args_line` the line that its arguments make.
pub open spec fn step_with_file(
    form: FormView,
    fields: JobFieldsView,
    words: Seq<Seq<char>>,
    args_line: Seq<char>,
    filename: Seq<char>,
    answer: Result<Seq<char>, Seq<char>>,
) -> SubmitStepView {
    match answer {
        Err(text) => SubmitStepView::Say { text },
        Ok(file_id) => send_job(
            form,
            fields,
            uploaded(
                payload_for(form, words),
                args_line,
                form.image_uri is Some,
                file_id,
                filename,
            ),
        ),
    }
}

/// The step after an upload, by the status of the answer, if there was one, and the number of the
/// file in it, which is empty if it gives none.
pub fn after_upload(
    form: &SubmitForm,
    fields: &JobFields,
    filename: &str,
    status: Option<u16>,
    file_id: String,
) -> (r: SubmitStep)
    ensures
        r@ == step_with_file(
            form@,
            fields@,
            command_words(form.args@),
            shell_join_of(payload_for(form@, command_words(form.args@)).args),
            filename@,
            upload_answer(status, file_id@),
        ),
{
    match upload_result(status, file_id) {
        Err(text) => SubmitStep::Say { text },
        Ok(file_id) => {
            let payload: Payload = with_upload(
                payload_of(form),
                form.image_uri.is_some(),
                &file_id,
                filename,
            );
            sending_job(form, fields, payload)
        },
    }
}

/// The step after an upload, from the answer.
pub fn file_uploaded(
    form: &SubmitForm,
    fields: &JobFields,
    filename: &str,
    status: Option<u16>,
    body: &str,
) -> (r: SubmitStep)
    ensures
        r@ == step_with_file(
            form@,
            fields@,
            command_words(form.args@),
            shell_join_of(payload_for(form@, command_words(form.args@)).args),
            filename@,
            upload_answer(
                status,
                file_id_in(json_string_of(body@), json_field_of(body@, "file_id"@)),
            ),
        ),
{
    after_upload(form, fields, filename, status, uploaded_file_id(body))
}

/// A job in a container runs the same command in the same directory whether or not a file was
/// uploaded for it.
pub proof fn law_container_command_stays(
    form: FormView,
    fields: JobFieldsView,
    words: Seq<Seq<char>>,
    args_line: Seq<char>,
    filename: Seq<char>,
    file_id: Seq<char>,
)
    requires
        form.image_uri is Some,
        form.template != "CWL Workflow"@,
    ensures
        ({
            let plain = first_step(form, fields, words, false);
            let with_file = step_with_file(form, fields, words, args_line, filename, Ok(file_id));
            &&& plain matches SubmitStepView::SendJob { request: a, .. }
            &&& with_file matches SubmitStepView::SendJob { request: b, .. }
            &&& b == (JobRequestView { inputs: b.inputs, ..a })
            &&& a.inputs.len() == 0
            &&& b.inputs.len() == 1
        }),
{
}

/// The request that a step sends carries the fields of the form, each as it stands there.
pub open spec fn carries(request: JobRequestView, form: FormView, fields: JobFieldsView) -> bool {
    &&& request.req_nodes == fields.nodes
    &&& request.req_cores == fields.cores
    &&& request.req_memory == fields.memory
    &&& request.walltime == fields.walltime
    &&& request.priority == fields.priority
    &&& request.user_id == fields.user_id
    &&& request.image_uri == form.image_uri
    &&& request.array_indices == array_indices(fields.array_indices)
    &&& request.job_name is Some <==> trimmed(fields.job_name).len() > 0
    &&& request.job_name is Some ==> request.job_name->0 == trimmed(fields.job_name)
    &&& request.job_comment is Some <==> trimmed(fields.job_comment).len() > 0
    &&& request.job_comment is Some ==> request.job_comment->0 == trimmed(fields.job_comment)
}

/// Whatever a job is sent with, with an uploaded file or without, it asks for the nodes, cores,
/// memory, time and priority of the form, for the form's user and image, under the name and with
/// the comment that were typed, without white space around them; and it goes to the list of jobs.
pub proof fn law_sent_jobs_carry_the_form(
    form: FormView,
    fields: JobFieldsView,
    words: Seq<Seq<char>>,
    file_picked: bool,
    args_line: Seq<char>,
    filename: Seq<char>,
    answer: Result<Seq<char>, Seq<char>>,
)
    ensures
        first_step(form, fields, words, file_picked) matches SubmitStepView::SendJob {
            address,
            request,
        } ==> address == "/api/v1/jobs"@ && carries(request, form, fields),
        step_with_file(
            form,
            fields,
            words,
            args_line,
            filename,
            answer,
        ) matches SubmitStepView::SendJob { address, request } ==> address == "/api/v1/jobs"@
            && carries(request, form, fields),
{
}

/// What a submission starts with: a workflow is sent at once, whatever file is picked, and holds
/// what was typed; a picked file is uploaded before the job is sent; else the job is sent.
pub proof fn law_submissions_start_in_one_of_three_ways(
    form: FormView,
    fields: JobFieldsView,
    words: Seq<Seq<char>>,
    file_picked: bool,
)
    ensures
        ({
            let step = first_step(form, fields, words, file_picked);
            let workflow = form.template == "CWL Workflow"@;
            &&& step is SendWorkflow <==> workflow
            &&& step is Upload <==> !workflow && file_picked
            &&& step is SendJob <==> !workflow && !file_picked
            &&& step matches SubmitStepView::Upload { address } ==> address == "/api/v1/files"@
            &&& step matches SubmitStepView::SendWorkflow { address, request } ==> {
                &&& address == "/api/v1/jobs/cwl"@
                &&& request.cwl_content == form.cwl_content
                &&& request.user_id == fields.user_id
                &&& request.working_directory == if form.cwd.len() == 0 {
                    "/scratch"@
                } else {
                    form.cwd
                }
            }
        }),
{
}

/// Without a file, a job runs the program of the form with the words of the command, of which a
/// first one that names the program is left out, in the directory of the form; nothing is put
/// beside it.
pub proof fn law_jobs_run_the_typed_command(
    form: FormView,
    fields: JobFieldsView,
    words: Seq<Seq<char>>,
)
    requires
        form.template != "CWL Workflow"@,
    ensures
        first_step(form, fields, words, false) matches SubmitStepView::SendJob { request, .. } && {
            &&& request.binary == form.binary
            &&& words.len() > 0 && form.binary.len() > 0 && words[0] == form.binary
                ==> seq![form.binary] + request.args == words
            &&& words.len() == 0 || form.binary.len() == 0 || words[0] != form.binary
                ==> request.args == words
            &&& form.cwd.len() > 0 ==> request.working_directory == form.cwd
            &&& form.cwd.len() == 0 ==> request.working_directory == "/scratch"@
            &&& request.inputs.len() == 0
        },
{
    if words.len() > 0 && words[0] == form.binary {
        assert(seq![form.binary] + words.skip(1) =~= words);
    }
}

/// With a file, a job in a container gets it put beside it under its name, and unpacked if it is an
/// archive; any other job is a script of its own that names the file and runs the command line.
pub proof fn law_uploaded_files_reach_the_job(
    form: FormView,
    fields: JobFieldsView,
    words: Seq<Seq<char>>,
    args_line: Seq<char>,
    filename: Seq<char>,
    file_id: Seq<char>,
)
    ensures
        step_with_file(
            form,
            fields,
            words,
            args_line,
            filename,
            Ok(file_id),
        ) matches SubmitStepView::SendJob { request, .. } && {
            &&& form.image_uri is Some ==> {
                &&& request.inputs.len() == 1
                &&& request.inputs[0].file_id == file_id
                &&& request.inputs[0].original_name == filename
                &&& !request.inputs[0].is_executable
                &&& request.inputs[0].is_archive <==> has_suffix(filename, ".tar.gz"@)
                    || has_suffix(filename, ".tgz"@) || has_suffix(filename, ".tar"@) || has_suffix(
                    filename,
                    ".zip"@,
                )
            }
            &&& form.image_uri is None ==> {
                &&& request.inputs.len() == 0
                &&& request.binary == "/bin/bash"@
                &&& request.working_directory == "/tmp"@
                &&& request.args.len() == 2
                &&& request.args[0] == "-c"@
                &&& has_text(request.args[1], "/api/v1/files/"@ + file_id + "\""@)
                &&& has_text(request.args[1], "FILENAME=\""@ + filename + "\""@)
                &&& has_text(request.args[1], "\n"@ + form.binary + " "@ + args_line + "\n"@)
            }
        },
{
    lemma_script_holds(file_id, filename, form.binary, args_line);
}

proof fn lemma_script_holds(
    file_id: Seq<char>,
    filename: Seq<char>,
    binary: Seq<char>,
    args_line: Seq<char>,
)
    ensures
        ({
            let script = upload_script(file_id, filename, binary, args_line);
            &&& has_text(script, "/api/v1/files/"@ + file_id + "\""@)
            &&& has_text(script, "FILENAME=\""@ + filename + "\""@)
            &&& has_text(script, "\n"@ + binary + " "@ + args_line + "\n"@)
        }),
{
    let script = upload_script(file_id, filename, binary, args_line);
    lemma_script_pieces();
    let head = SCRIPT_START@ + "/tmp/veloce_work_$RANDOM"@;
    let (fetch, name, unpack, ret) = (SCRIPT_FETCH@, SCRIPT_NAME@, SCRIPT_UNPACK@, SCRIPT_RETURN@);
    let files = "/api/v1/files/"@;
    let named = "FILENAME=\""@;
    let quote = "\""@;
    let line = "\n"@;
    let f = fetch.take(fetch.len() - files.len());
    let n = name.take(name.len() - named.len());
    let u = unpack.take(unpack.len() - 1);
    assert(fetch =~= f + files);
    assert(name =~= n + named);
    assert(unpack =~= u + line);
    assert(name =~= quote + name.skip(1));
    assert(unpack =~= quote + unpack.skip(1));
    assert(ret =~= line + ret.skip(1));
    let after_id = name.skip(1) + filename + unpack + binary + " "@ + args_line + ret;
    assert(script =~= (head + f) + (files + file_id + quote) + after_id);
    lemma_holds(head + f, files + file_id + quote, after_id);
    let before_name = head + fetch + file_id + n;
    let after_name = unpack.skip(1) + binary + " "@ + args_line + ret;
    assert(script =~= before_name + (named + filename + quote) + after_name);
    lemma_holds(before_name, named + filename + quote, after_name);
    let before_run = head + fetch + file_id + name + filename + u;
    assert(script =~= before_run + (line + binary + " "@ + args_line + line) + ret.skip(1));
    lemma_holds(before_run, line + binary + " "@ + args_line + line, ret.skip(1));
}

proof fn lemma_script_pieces()
    ensures
        ({
            let (fetch, name) = (SCRIPT_FETCH@, SCRIPT_NAME@);
            let (unpack, ret) = (SCRIPT_UNPACK@, SCRIPT_RETURN@);
            &&& fetch.len() >= 14 && fetch.skip(fetch.len() - 14) == "/api/v1/files/"@
            &&& "/api/v1/files/"@.len() == 14
            &&& name.len() >= 10 && name.skip(name.len() - 10) == "FILENAME=\""@
            &&& "FILENAME=\""@.len() == 10
            &&& name[0] == '"'
            &&& unpack.len() > 1 && unpack[0] == '"' && unpack.last() == '\n'
            &&& ret.len() > 0 && ret[0] == '\n'
            &&& "\""@ == seq!['"']
            &&& "\n"@ == seq!['\n']
        }),
{
    reveal_strlit("\"\nmkdir -p \"$WORKDIR\"\ncd \"$WORKDIR\"\n\n# Download\necho \"Downloading input file...\"\ncurl -k -v -f -H \"X-API-KEY: $VELOCE_FILESERVER_KEY\" -o \"downloaded_file\" \"$VELOCE_FILESERVER_URL/api/v1/files/");
    reveal_strlit("\"\n\n# Restore Filename\nFILENAME=\"");
    reveal_strlit("\"\nmv \"downloaded_file\" \"$FILENAME\"\n\n# Unpack if archive\nif [[ \"$FILENAME\" == *.tar.gz || \"$FILENAME\" == *.tgz || \"$FILENAME\" == *.tar ]]; then\n    echo \"Unpacking archive...\"\n    tar -xf \"$FILENAME\"\nelif [[ \"$FILENAME\" == *.zip ]]; then\n    echo \"Unzipping archive...\"\n    unzip \"$FILENAME\"\nfi\n\n# Run Original Command\necho \"Running payload...\"\nset +e\n");
    reveal_strlit("\nEXIT_CODE=$?\nset -e\n\n# Upload Results\necho \"Creating result archive...\"\nRESULT_ARCHIVE=\"results_$RANDOM.tar.gz\"\ntar -czf \"$RESULT_ARCHIVE\" .\n\necho \"Uploading results...\"\nUPLOAD_RESPONSE=$(curl -k -v -f -H \"X-API-KEY: $VELOCE_FILESERVER_KEY\" -F \"file=@$RESULT_ARCHIVE\" \"$VELOCE_FILESERVER_URL/api/v1/files\")\n\n# Extract File ID\nRESULT_ID=$(echo \"$UPLOAD_RESPONSE\" | grep -oE '[0-9a-f]{8}-[0-9a-f]{4}-[0-9a-f]{4}-[0-9a-f]{4}-[0-9a-f]{12}')\n\nif [ ! -z \"$RESULT_ID\" ]; then\n    echo \"[VELOCE_RESULT_ID: $RESULT_ID]\"\nelse\n    echo \"Failed to upload results or parse ID.\"\nfi\n\n# Cleanup\ncd ..\nrm -rf \"$WORKDIR\"\n\nexit $EXIT_CODE\n");
    reveal_strlit("/api/v1/files/");
    reveal_strlit("FILENAME=\"");
    reveal_strlit("\"");
    reveal_strlit("\n");
    let (fetch, name) = (SCRIPT_FETCH@, SCRIPT_NAME@);
    assert(fetch.skip(fetch.len() - 14) =~= "/api/v1/files/"@);
    assert(name.skip(name.len() - 10) =~= "FILENAME=\""@);
    assert("\""@ =~= seq!['"']);
    assert("\n"@ =~= seq!['\n']);
}

/// The answer to an upload decides: only one that succeeded and gives the number of the file lets
/// the job be sent; any other is told, and the job is not sent.
pub proof fn law_failed_uploads_send_no_job(
    form: FormView,
    fields: JobFieldsView,
    words: Seq<Seq<char>>,
    args_line: Seq<char>,
    filename: Seq<char>,
    status: Option<u16>,
    file_id: Seq<char>,
)
    ensures
        ({
            let answer = upload_answer(status, file_id);
            let step = step_with_file(form, fields, words, args_line, filename, answer);
            &&& step is SendJob <==> status is Some && 200 <= status->0 <= 299 && file_id.len() > 0
            &&& step is SendJob || step is Say
            &&& status is None ==> step == (SubmitStepView::Say { text: "Upload network error"@ })
            &&& answer is Ok ==> answer == Ok::<Seq<char>, Seq<char>>(file_id)
            &&& status is Some && !(200 <= status->0 <= 299) ==> (step matches SubmitStepView::Say {
                text,
            } && has_suffix(text, decimal(status->0 as nat)))
        }),
{
    if status is Some {
        lemma_ends_with("Upload failed: "@, decimal(status->0 as nat));
    }
}

/// What is typed into a field is read from that field, and what a request asks for is read from the
/// part of it that says so.
pub proof fn law_fields_and_requests_are_read_by_name(f: JobFields, r: JobRequest)
    ensures
        f@.job_name == f.job_name@ && f@.job_comment == f.job_comment@ && f@.user_id == f.user_id@,
        f@.nodes == f.nodes && f@.cores == f.cores && f@.memory == f.memory,
        f@.walltime == f.walltime && f@.priority == f.priority,
        f@.array_indices == f.array_indices@,
        r@.job_name == optional_text(r.job_name) && r@.job_comment == optional_text(r.job_comment),
        r@.binary == r.binary@ && r@.args == texts(r.args@) && r@.user_id == r.user_id@,
        r@.req_nodes == r.req_nodes && r@.req_cores == r.req_cores && r@.req_memory == r.req_memory,
        r@.walltime == r.walltime && r@.priority == r.priority,
        r@.working_directory == r.working_directory@ && r@.image_uri == optional_text(r.image_uri),
        r.array_indices is Some ==> r@.array_indices == Some((r.array_indices->0)@),
        r.array_indices is None ==> r@.array_indices is None,
        r@.inputs == input_views(r.inputs@),
{
}

/// The form starts out for one core on one node with a gigabyte of memory, for an hour and without
/// priority, for the user of the session; where nobody is signed in, for the user of the console.
pub proof fn law_forms_start_out_small(user: Seq<char>)
    ensures
        fields_at_start(Some(user)).user_id == user,
        fields_at_start(None).user_id == "web_user"@,
        ({
            let f = fields_at_start(Some(user));
            &&& f.nodes == 1 && f.cores == 1 && f.memory == 1024 && f.walltime == 60 * 60
                && f.priority == 0
            &&& f.job_name.len() == 0 && f.job_comment.len() == 0 && f.array_indices.len() == 0
        }),
{
    reveal_strlit("");
}

} // verus!
