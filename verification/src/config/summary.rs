//! Settings as they are shown to an operator.
use vstd::prelude::*;

use crate::audit::events::optional_text;
use crate::audit::redact::number_json;
use crate::config::{auth_mode_name, bind_text, Config, ConfigView};
use crate::json::{lemma_object_ordered, push_field, views, well_ordered, JsonValue, JsonView};
use crate::search::texts;
use crate::text::text_less;

verus! {

pub open spec fn text_list(list: Seq<Seq<char>>) -> JsonView {
    JsonView::Array(list.map_values(|text: Seq<char>| JsonView::Text(text)))
}

pub open spec fn limits_json(config: ConfigView) -> JsonView {
    JsonView::Object(
        seq![
            ("exec_default_timeout_ms"@, number_json(config.exec_default_timeout_ms as int)),
            ("exec_max_timeout_ms"@, number_json(config.exec_max_timeout_ms as int)),
            (
                "max_concurrent_processes"@,
                number_json(config.limits.max_concurrent_processes as int),
            ),
            ("max_concurrent_tools"@, number_json(config.limits.max_concurrent_tools as int)),
            ("max_process_output_bytes"@, number_json(config.limits.process_output_bytes as int)),
            ("max_write_bytes"@, number_json(config.limits.write_bytes as int)),
        ],
    )
}

pub open spec fn output_json(config: ConfigView) -> JsonView {
    JsonView::Object(
        seq![
            ("file_bytes"@, number_json(config.output.file_bytes as int)),
            ("max_results"@, number_json(config.output.results as int)),
            ("multi_file_bytes"@, number_json(config.output.multi_file_bytes as int)),
            ("search_bytes"@, number_json(config.output.search_bytes as int)),
        ],
    )
}

/// The settings that are shown.
pub open spec fn summary_json(config: ConfigView) -> JsonView {
    JsonView::Object(
        seq![
            ("allow_unsandboxed_exec"@, JsonView::Bool(config.allow_unsandboxed_exec)),
            ("allowed_hosts"@, text_list(config.allowed_hosts)),
            ("auth"@, JsonView::Text(auth_mode_name(config.auth_mode))),
            ("bind"@, JsonView::Text(bind_text(config.bind))),
            ("config_source"@, JsonView::Text(config.config_source)),
            ("configured_upstreams"@, number_json(config.upstreams.len() as int)),
            ("init_required"@, JsonView::Bool(true)),
            ("limits"@, limits_json(config)),
            ("log_root"@, JsonView::Text(config.logs.root)),
            ("output"@, output_json(config)),
            ("project_doc_fallbacks"@, text_list(config.project_doc_fallbacks)),
            ("sandbox_backend"@, JsonView::Text(config.sandbox_backend)),
            ("upstream_config"@, optional_text(config.upstream_config)),
            ("workspace_root"@, JsonView::Text(config.workspace_root)),
            ("yolo_tools"@, JsonView::Bool(true)),
        ],
    )
}

/// What is shown of settings does not depend on the token.
pub proof fn summary_keeps_the_token_secret(config: ConfigView, other: Seq<char>)
    ensures
        summary_json(config) == summary_json(ConfigView { auth_token: other, ..config }),
{
}

proof fn lemma_list_ordered(list: Seq<Seq<char>>)
    ensures
        well_ordered(text_list(list)),
{
    let items = text_list(list)->Array_0;
    assert forall|i: int| 0 <= i < items.len() implies well_ordered(#[trigger] items[i]) by {
        assert(items[i] == JsonView::Text(list[i]));
    }
}

pub proof fn lemma_limits_ordered(config: ConfigView)
    ensures
        well_ordered(limits_json(config)),
{
    reveal_strlit("exec_default_timeout_ms");
    reveal_strlit("exec_max_timeout_ms");
    reveal_strlit("max_concurrent_processes");
    reveal_strlit("max_concurrent_tools");
    reveal_strlit("max_process_output_bytes");
    reveal_strlit("max_write_bytes");
    reveal_with_fuel(text_less, 17);
    let fields = limits_json(config)->Object_0;
    assert(fields.len() == 6);
    assert(text_less(fields[0].0, fields[1].0));
    assert(text_less(fields[1].0, fields[2].0));
    assert(text_less(fields[2].0, fields[3].0));
    assert(text_less(fields[3].0, fields[4].0));
    assert(text_less(fields[4].0, fields[5].0));
    assert forall|k: int| 0 <= k < fields.len() - 1 implies text_less(
        fields[k].0,
        #[trigger] fields[k + 1].0,
    ) by {
        if k == 0 {
        } else if k == 1 {
        } else if k == 2 {
        } else if k == 3 {
        } else {
            assert(k == 4);
        }
    }
    assert forall|k: int| 0 <= k < fields.len() implies well_ordered((#[trigger] fields[k]).1) by {
        if k == 0 {
        } else if k == 1 {
        } else if k == 2 {
        } else if k == 3 {
        } else if k == 4 {
        } else {
            assert(k == 5);
        }
    }
    lemma_object_ordered(fields);
}

pub proof fn lemma_output_ordered(config: ConfigView)
    ensures
        well_ordered(output_json(config)),
{
    reveal_strlit("file_bytes");
    reveal_strlit("max_results");
    reveal_strlit("multi_file_bytes");
    reveal_strlit("search_bytes");
    reveal_with_fuel(text_less, 3);
    let fields = output_json(config)->Object_0;
    assert(fields.len() == 4);
    assert(text_less(fields[0].0, fields[1].0));
    assert(text_less(fields[1].0, fields[2].0));
    assert(text_less(fields[2].0, fields[3].0));
    assert forall|k: int| 0 <= k < fields.len() - 1 implies text_less(
        fields[k].0,
        #[trigger] fields[k + 1].0,
    ) by {
        if k == 0 {
        } else if k == 1 {
        } else {
            assert(k == 2);
        }
    }
    assert forall|k: int| 0 <= k < fields.len() implies well_ordered((#[trigger] fields[k]).1) by {
        if k == 0 {
        } else if k == 1 {
        } else if k == 2 {
        } else {
            assert(k == 3);
        }
    }
    lemma_object_ordered(fields);
}

proof fn lemma_names_ascend()
    ensures
        text_less("allow_unsandboxed_exec"@, "allowed_hosts"@),
        text_less("allowed_hosts"@, "auth"@),
        text_less("auth"@, "bind"@),
        text_less("bind"@, "config_source"@),
        text_less("config_source"@, "configured_upstreams"@),
        text_less("configured_upstreams"@, "init_required"@),
        text_less("init_required"@, "limits"@),
        text_less("limits"@, "log_root"@),
        text_less("log_root"@, "output"@),
        text_less("output"@, "project_doc_fallbacks"@),
        text_less("project_doc_fallbacks"@, "sandbox_backend"@),
        text_less("sandbox_backend"@, "upstream_config"@),
        text_less("upstream_config"@, "workspace_root"@),
        text_less("workspace_root"@, "yolo_tools"@),
{
    reveal_strlit("allow_unsandboxed_exec");
    reveal_strlit("allowed_hosts");
    reveal_strlit("auth");
    reveal_strlit("bind");
    reveal_strlit("config_source");
    reveal_strlit("configured_upstreams");
    reveal_strlit("init_required");
    reveal_strlit("limits");
    reveal_strlit("log_root");
    reveal_strlit("output");
    reveal_strlit("project_doc_fallbacks");
    reveal_strlit("sandbox_backend");
    reveal_strlit("upstream_config");
    reveal_strlit("workspace_root");
    reveal_strlit("yolo_tools");
    reveal_with_fuel(text_less, 8);
}

pub proof fn lemma_summary_ordered(config: ConfigView)
    ensures
        well_ordered(summary_json(config)),
{
    lemma_names_ascend();
    lemma_limits_ordered(config);
    lemma_output_ordered(config);
    lemma_list_ordered(config.allowed_hosts);
    lemma_list_ordered(config.project_doc_fallbacks);
    let fields = summary_json(config)->Object_0;
    assert(fields.len() == 15);
    assert forall|k: int| 0 <= k < fields.len() - 1 implies text_less(
        fields[k].0,
        #[trigger] fields[k + 1].0,
    ) by {
        if k < 4 {
            assert(k == 0 || k == 1 || k == 2 || k == 3);
        } else if k < 8 {
            assert(k == 4 || k == 5 || k == 6 || k == 7);
        } else {
            assert(k == 8 || k == 9 || k == 10 || k == 11 || k == 12 || k == 13);
        }
    }
    assert forall|k: int| 0 <= k < fields.len() implies well_ordered((#[trigger] fields[k]).1) by {
        if k < 5 {
            assert(k == 0 || k == 1 || k == 2 || k == 3 || k == 4);
        } else if k < 10 {
            assert(k == 5 || k == 6 || k == 7 || k == 8 || k == 9);
        } else {
            assert(k == 10 || k == 11 || k == 12 || k == 13 || k == 14);
        }
    }
    lemma_object_ordered(fields);
}

fn list_json(list: &Vec<String>) -> (value: JsonValue)
    ensures
        value@ == text_list(texts(list@)),
{
    let mut items: Vec<JsonValue> = Vec::new();
    let mut i: usize = 0;
    while i < list.len()
        invariant
            i <= list@.len(),
            items@.len() == i,
            forall|j: int| 0 <= j < i ==> (#[trigger] items@[j])@ == JsonView::Text(list@[j]@),
        decreases list.len() - i,
    {
        items.push(JsonValue::text(list[i].as_str()));
        i += 1;
    }
    proof {
        assert(views(items@) =~= texts(list@).map_values(|text: Seq<char>| JsonView::Text(text)));
    }
    JsonValue::array(items)
}

impl Config {
    /// The settings that are shown to an operator.
    pub fn diagnostic_summary(&self) -> (value: JsonValue)
        ensures
            value@ == summary_json(self@),
            well_ordered(value@),
    {
        let mut limits: Vec<(String, JsonValue)> = Vec::new();
        push_field(
            &mut limits,
            "exec_default_timeout_ms",
            JsonValue::number(self.exec_default_timeout_ms),
        );
        push_field(&mut limits, "exec_max_timeout_ms", JsonValue::number(self.exec_max_timeout_ms));
        push_field(
            &mut limits,
            "max_concurrent_processes",
            JsonValue::number(self.limits.max_concurrent_processes as u64),
        );
        push_field(
            &mut limits,
            "max_concurrent_tools",
            JsonValue::number(self.limits.max_concurrent_tools as u64),
        );
        push_field(
            &mut limits,
            "max_process_output_bytes",
            JsonValue::number(self.limits.process_output_bytes as u64),
        );
        push_field(
            &mut limits,
            "max_write_bytes",
            JsonValue::number(self.limits.write_bytes as u64),
        );
        let limits = JsonValue::object(limits);
        proof {
            assert(limits@->Object_0 =~= limits_json(self@)->Object_0);
        }
        let mut output: Vec<(String, JsonValue)> = Vec::new();
        push_field(&mut output, "file_bytes", JsonValue::number(self.output.file_bytes as u64));
        push_field(&mut output, "max_results", JsonValue::number(self.output.results as u64));
        push_field(
            &mut output,
            "multi_file_bytes",
            JsonValue::number(self.output.multi_file_bytes as u64),
        );
        push_field(&mut output, "search_bytes", JsonValue::number(self.output.search_bytes as u64));
        let output = JsonValue::object(output);
        proof {
            assert(output@->Object_0 =~= output_json(self@)->Object_0);
        }
        let upstream_config = match &self.upstream_config {
            Some(path) => JsonValue::text(path.as_str()),
            None => JsonValue::null(),
        };
        let mut fields: Vec<(String, JsonValue)> = Vec::new();
        push_field(
            &mut fields,
            "allow_unsandboxed_exec",
            JsonValue::truth(self.allow_unsandboxed_exec),
        );
        push_field(&mut fields, "allowed_hosts", list_json(&self.allowed_hosts));
        push_field(&mut fields, "auth", JsonValue::text(self.auth_mode.as_str()));
        push_field(&mut fields, "bind", JsonValue::text(self.bind.to_text().as_str()));
        push_field(&mut fields, "config_source", JsonValue::text(self.config_source.as_str()));
        push_field(
            &mut fields,
            "configured_upstreams",
            JsonValue::number(self.upstreams.len() as u64),
        );
        push_field(&mut fields, "init_required", JsonValue::truth(true));
        push_field(&mut fields, "limits", limits);
        push_field(&mut fields, "log_root", JsonValue::text(self.logs.root.as_str()));
        push_field(&mut fields, "output", output);
        push_field(&mut fields, "project_doc_fallbacks", list_json(&self.project_doc_fallbacks));
        push_field(&mut fields, "sandbox_backend", JsonValue::text(self.sandbox_backend.as_str()));
        push_field(&mut fields, "upstream_config", upstream_config);
        push_field(&mut fields, "workspace_root", JsonValue::text(self.workspace_root.as_str()));
        push_field(&mut fields, "yolo_tools", JsonValue::truth(true));
        let value = JsonValue::object(fields);
        proof {
            assert(value@->Object_0 =~= summary_json(self@)->Object_0);
            lemma_summary_ordered(self@);
        }
        value
    }
}

}
