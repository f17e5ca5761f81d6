//! Resolving, preparing and committing.
use vstd::prelude::*;

use crate::audit::parts::opts;
use crate::error::{error, unit_view, AppError, ErrorView};
use crate::project::{
    binding_request, context_answer, context_named, context_of, derive_native_project_key,
    derive_subject_key, initialized_answer, is_valid_key, join_path, joined_path, prepared,
    prepared_answer, prepared_turn, remembers, resolved, resolved_initialized, validate_alias,
    ContextView, PreparedProjectInitialization, PreparedView, ProjectContext, ProjectKey,
    ProjectResolver, ResolverView, INITIALIZED_CACHE_MAX_ENTRIES,
};
use crate::request_context::RequestIdentity;
use crate::storage::turns::{
    bound_project, commit, project_alias, turn_answer_view, CommitView, OutcomeView, TurnRefCommit,
    TurnRefCommitOutcome,
};
use crate::storage::{Storage, StorageView};
use crate::table::{get_record, new_records, no_records, put_bounded, records_len};
use crate::text::{opt_copy, opt_owned, opt_str, opt_str_view, opt_view};

verus! {

/// The new cache and storage behind a successful binding, or the old ones.
pub open spec fn bound_after(
    before: ResolverView,
    after: ResolverView,
    done: PreparedView,
    outcome: (StorageView, Result<Option<OutcomeView>, ErrorView>),
) -> bool {
    &&& after.workspace_root == before.workspace_root
    &&& after.metadata_root == before.metadata_root
    &&& after.separator == before.separator
    &&& after.storage == outcome.0
    &&& if outcome.1 is Ok {
        remembers(before.cache, after.cache, done.project)
    } else {
        after.cache == before.cache
    }
}

impl ProjectResolver {
    /// A resolver over what is stored, for a workspace given by its canonical
    /// path.
    pub fn new(workspace_root: String, separator: char, storage: Storage) -> (resolver:
        ProjectResolver)
        ensures
            resolver@ == (ResolverView {
                workspace_root: workspace_root@,
                metadata_root: joined_path(workspace_root@, ".metadata"@, separator),
                separator,
                storage: storage@,
                cache: no_records(),
            }),
    {
        let metadata_root = join_path(workspace_root.as_str(), ".metadata", separator);
        ProjectResolver {
            workspace_root,
            metadata_root,
            separator,
            storage,
            initialized_cache: new_records(),
        }
    }

    pub fn storage(&self) -> (storage: &Storage)
        ensures
            storage@ == self@.storage,
    {
        &self.storage
    }

    pub fn initialized_cache_entries(&self) -> (n: usize)
        ensures
            self@.cache.dom().finite(),
            n == self@.cache.len(),
    {
        records_len(&self.initialized_cache)
    }

    pub fn validate_alias(&self, alias: &str) -> (result: Result<(), AppError>)
        ensures
            unit_view(result) == if crate::project::valid_alias(alias@) {
                Ok(())
            } else {
                Err(crate::project::alias_error())
            },
    {
        validate_alias(alias)
    }

    fn named_context(
        &self,
        native: ProjectKey,
        effective: ProjectKey,
        alias: Option<String>,
        identity: &RequestIdentity,
    ) -> (project: ProjectContext)
        ensures
            project@ == context_named(
                self@,
                native@,
                effective@,
                opt_view(alias),
                identity@,
            ),
    {
        let project_root = join_path(
            self.workspace_root.as_str(),
            effective.as_str(),
            self.separator,
        );
        let projects = join_path(self.metadata_root.as_str(), "projects", self.separator);
        let metadata_root = join_path(projects.as_str(), effective.as_str(), self.separator);
        ProjectContext {
            native_project_key: native,
            effective_project_key: effective,
            project_alias: alias,
            project_root,
            metadata_root,
            transport_mode: identity.transport_mode,
            mcp_session_present: identity.mcp_session_id.is_some(),
        }
    }

    fn context(&self, native: ProjectKey, effective: String, identity: &RequestIdentity) -> (result:
        Result<ProjectContext, AppError>)
        ensures
            context_answer(result) == context_of(self@, native@, effective@, identity@),
    {
        match ProjectKey::new(effective) {
            Ok(key) => {
                let alias = self.storage.alias_for_effective(key.as_str());
                Ok(self.named_context(native, key, alias, identity))
            },
            Err(e) => Err(e),
        }
    }

    /// The project of a conversation, its own where it is bound to none.
    pub fn resolve(&self, identity: &RequestIdentity) -> (result: Result<ProjectContext, AppError>)
        ensures
            context_answer(result) == resolved(self@, identity@),
    {
        let native = derive_native_project_key(
            identity.openai_subject.as_str(),
            identity.openai_conversation_id.as_str(),
        );
        let effective = match self.storage.effective_binding(native.as_str()) {
            Some(key) => key,
            None => native.as_str().to_owned(),
        };
        self.context(native, effective, identity)
    }

    /// The project that a conversation was initialized with. The answer says
    /// whether it was remembered; one that was not is remembered by
    /// [`ProjectResolver::cache_initialized`] once its directories stand.
    pub fn resolve_initialized(&self, identity: &RequestIdentity) -> (result: Result<
        (ProjectContext, bool),
        AppError,
    >)
        ensures
            initialized_answer(result) == resolved_initialized(self@, identity@),
    {
        let native = derive_native_project_key(
            identity.openai_subject.as_str(),
            identity.openai_conversation_id.as_str(),
        );
        if let Some(record) = get_record(&self.initialized_cache, native.as_str()) {
            proof {
                assert(opts(record@).len() == record@.len());
            }
            if record.len() == 2 {
                proof {
                    assert(opts(record@)[0] == opt_view(record@[0]));
                    assert(opts(record@)[1] == opt_view(record@[1]));
                }
                if let Some(effective) = &record[0] {
                    if is_valid_key(effective.as_str()) {
                        if let Ok(key) = ProjectKey::new(effective.clone()) {
                            let alias = opt_copy(&record[1]);
                            return Ok((self.named_context(native, key, alias, identity), true));
                        }
                    }
                }
            }
        }
        match self.storage.effective_binding(native.as_str()) {
            None => Err(
                error(
                    "TURN_NOT_INITIALIZED",
                    "this ChatGPT conversation has no initialized project turn yet; call chatgpt_turn_init first, for example with project_key=\"demo-workspace\"",
                ),
            ),
            Some(effective) => match self.context(native, effective, identity) {
                Ok(project) => Ok((project, false)),
                Err(e) => Err(e),
            },
        }
    }

    /// Remember the project of a conversation. A full cache forgets another
    /// one.
    pub fn cache_initialized(&mut self, project: &ProjectContext)
        ensures
            remembers(old(self)@.cache, final(self)@.cache, project@),
            final(self)@ == (ResolverView { cache: final(self)@.cache, ..old(self)@ }),
    {
        let full = records_len(&self.initialized_cache) >= INITIALIZED_CACHE_MAX_ENTRIES;
        let mut record: Vec<Option<String>> = Vec::new();
        record.push(Some(project.effective_project_key.as_str().to_owned()));
        record.push(opt_copy(&project.project_alias));
        proof {
            assert(opts(record@) =~= seq![
                Some(project@.effective_project_key),
                project@.project_alias,
            ]);
        }
        put_bounded(
            &mut self.initialized_cache,
            project.native_project_key.as_str(),
            record,
            full,
        );
    }

    fn prepare_initialize_inner(
        &self,
        identity: &RequestIdentity,
        alias: Option<&str>,
        inherited_effective: Option<&str>,
    ) -> (result: Result<PreparedProjectInitialization, AppError>)
        ensures
            prepared_answer(result) == prepared(
                self@,
                identity@,
                opt_str_view(alias),
                opt_str_view(inherited_effective),
            ),
    {
        let native = derive_native_project_key(
            identity.openai_subject.as_str(),
            identity.openai_conversation_id.as_str(),
        );
        let subject_key = derive_subject_key(identity.openai_subject.as_str());
        let wanted = match alias {
            Some(name) => if name.is_empty() {
                None
            } else {
                Some(name)
            },
            None => None,
        };
        if let Some(name) = wanted {
            if let Err(e) = validate_alias(name) {
                return Err(e);
            }
        }
        let expected_binding = self.storage.effective_binding(native.as_str());
        let expected_alias_binding = match wanted {
            Some(name) => self.storage.effective_for_alias(name),
            None => None,
        };
        let joined = expected_alias_binding.is_some() || (expected_binding.is_none()
            && inherited_effective.is_some());
        let effective = match &expected_alias_binding {
            Some(key) => key.clone(),
            None => match &expected_binding {
                Some(key) => key.clone(),
                None => match inherited_effective {
                    Some(key) => key.to_owned(),
                    None => match wanted {
                        Some(key) => key.to_owned(),
                        None => native.as_str().to_owned(),
                    },
                },
            },
        };
        let reused_existing_binding = match &expected_binding {
            Some(key) => key.as_str().eq(effective.as_str()),
            None => false,
        };
        let mut project = match self.context(native, effective, identity) {
            Ok(project) => project,
            Err(e) => {
                return Err(e);
            },
        };
        if expected_alias_binding.is_none() {
            if let Some(name) = wanted {
                project.project_alias = Some(name.to_owned());
            }
        }
        Ok(
            PreparedProjectInitialization {
                project,
                joined,
                reused_existing_binding,
                subject_key,
                alias: opt_owned(wanted),
                expected_binding,
                expected_alias_binding,
            },
        )
    }

    pub fn prepare_initialize(&self, identity: &RequestIdentity, alias: Option<&str>) -> (result:
        Result<PreparedProjectInitialization, AppError>)
        ensures
            prepared_answer(result) == prepared(self@, identity@, opt_str_view(alias), None),
    {
        self.prepare_initialize_inner(identity, alias, None)
    }

    pub fn prepare_turn_initialize(
        &self,
        identity: &RequestIdentity,
        alias: Option<&str>,
        previous_turn_ref: Option<&str>,
    ) -> (result: Result<PreparedProjectInitialization, AppError>)
        ensures
            prepared_answer(result) == prepared_turn(
                self@,
                identity@,
                opt_str_view(alias),
                opt_str_view(previous_turn_ref),
            ),
    {
        match previous_turn_ref {
            None => self.prepare_initialize_inner(identity, alias, None),
            Some(turn_ref) => {
                let subject_key = derive_subject_key(identity.openai_subject.as_str());
                match self.storage.turn_ref_effective_for_subject(turn_ref, subject_key.as_str()) {
                    None => Err(
                        error(
                            "TURN_REF_NOT_FOUND",
                            "previous_turn_ref does not exist or is not available to this ChatGPT subject",
                        ),
                    ),
                    Some(effective) => self.prepare_initialize_inner(
                        identity,
                        alias,
                        Some(effective.as_str()),
                    ),
                }
            },
        }
    }

    /// Bind a conversation as prepared, and remember its project.
    pub fn commit_initialize(&mut self, done: &PreparedProjectInitialization) -> (result: Result<
        (),
        AppError,
    >)
        ensures
            ({
                let outcome = commit(old(self)@.storage, binding_request(done@, None, ""@));
                &&& bound_after(old(self)@, final(self)@, done@, outcome)
                &&& match result {
                    Ok(_) => outcome.1 is Ok,
                    Err(e) => outcome.1 == Err::<Option<OutcomeView>, ErrorView>(e@),
                }
            }),
    {
        match self.storage.commit_initialization(
            done.project.native_project_key.as_str(),
            done.project.effective_project_key.as_str(),
            opt_str(&done.alias),
            opt_str(&done.expected_binding),
            opt_str(&done.expected_alias_binding),
        ) {
            Err(e) => Err(e),
            Ok(_) => {
                self.cache_initialized(&done.project);
                Ok(())
            },
        }
    }

    /// Bind a conversation as prepared, add a turn to it, and remember its
    /// project.
    pub fn commit_initialize_with_turn_ref(
        &mut self,
        done: &PreparedProjectInitialization,
        turn_ref: &str,
        parent_turn_ref: Option<&str>,
        instruction_hash: &str,
        state_hash: &str,
        brief_snapshot: &str,
        state_snapshot: Option<&str>,
        now: &str,
    ) -> (result: Result<TurnRefCommitOutcome, AppError>)
        ensures
            ({
                let turn = CommitView {
                    turn_ref: turn_ref@,
                    parent_turn_ref: opt_str_view(parent_turn_ref),
                    force_full_brief: false,
                    instruction_hash: instruction_hash@,
                    state_hash: state_hash@,
                    subject_key: done@.subject_key,
                    brief_snapshot: brief_snapshot@,
                    state_snapshot: opt_str_view(state_snapshot),
                };
                let outcome = commit(
                    old(self)@.storage,
                    binding_request(done@, Some(turn), now@),
                );
                &&& bound_after(old(self)@, final(self)@, done@, outcome)
                &&& turn_answer_view(result) == outcome.1
            }),
    {
        let outcome = self.storage.commit_initialization_with_turn_ref(
            done.project.native_project_key.as_str(),
            done.project.effective_project_key.as_str(),
            opt_str(&done.alias),
            opt_str(&done.expected_binding),
            opt_str(&done.expected_alias_binding),
            TurnRefCommit {
                turn_ref,
                parent_turn_ref,
                force_full_brief: false,
                instruction_hash,
                state_hash,
                subject_key: done.subject_key.as_str(),
                brief_snapshot,
                state_snapshot,
            },
            now,
        );
        if outcome.is_ok() {
            self.cache_initialized(&done.project);
        }
        outcome
    }

    /// Bind a conversation; whether it joined a project that was there.
    pub fn initialize(&mut self, identity: &RequestIdentity, alias: Option<&str>) -> (result: Result<
        (ProjectContext, bool),
        AppError,
    >)
        ensures
            match prepared(old(self)@, identity@, opt_str_view(alias), None) {
                Err(refused) => initialized_answer(result) == Err::<(ContextView, bool), ErrorView>(
                    refused,
                ) && final(self)@ == old(self)@,
                Ok(done) => {
                    let outcome = commit(old(self)@.storage, binding_request(done, None, ""@));
                    &&& bound_after(old(self)@, final(self)@, done, outcome)
                    &&& initialized_answer(result) == match outcome.1 {
                        Ok(_) => Ok((done.project, done.joined)),
                        Err(refused) => Err(refused),
                    }
                },
            },
    {
        let done = match self.prepare_initialize(identity, alias) {
            Ok(done) => done,
            Err(e) => {
                return Err(e);
            },
        };
        match self.commit_initialize(&done) {
            Ok(_) => Ok((done.project, done.joined)),
            Err(e) => Err(e),
        }
    }

    /// Whether the directories of a project stay after its binding failed:
    /// another request bound the conversation to it, or named it.
    pub fn keeps_layout(&self, done: &PreparedProjectInitialization) -> (keeps: bool)
        ensures
            keeps == (bound_project(
                self@.storage.bindings,
                done@.project.native_project_key,
            ) == Some(done@.project.effective_project_key) || project_alias(
                self@.storage.aliases,
                done@.project.effective_project_key,
            ) is Some),
    {
        let effective = done.project.effective_project_key.as_str();
        let bound = match self.storage.effective_binding(done.project.native_project_key.as_str()) {
            Some(key) => key.as_str().eq(effective),
            None => false,
        };
        bound || self.storage.alias_for_effective(effective).is_some()
    }
}

}
