//! Memory tools: searching and writing the agent's markdown memory.

use std::sync::Arc;
use vstd::prelude::*;
use crate::error::AgentCorpError;
use crate::json::{json_get_u64, json_str_field, json_u64_field};
use crate::text::concat;
use crate::tool::args::{is_tool_error, missing_param_message, required_str_arg, str_arg_or, str_arg_or_spec};
use crate::tool::team::ToolContext;

verus! {

/// How many results a memory search returns when the caller names no limit.
pub const MEMORY_SEARCH_LIMIT: usize = 10;

/// Searches the agent's memory.
pub struct MemorySearchTool {
    ctx: Arc<ToolContext>,
}

impl MemorySearchTool {
    pub fn new(ctx: Arc<ToolContext>) -> (t: Self)
        ensures
            t.context() == *ctx,
    {
        MemorySearchTool { ctx }
    }

    /// The context the tool runs in.
    pub closed spec fn context(&self) -> ToolContext {
        *self.ctx
    }

    pub fn name(&self) -> (r: &'static str)
        ensures
            r@ == "memory_search"@,
    {
        "memory_search"
    }

    pub fn description(&self) -> (r: &'static str)
        ensures
            r@ == "Search agent memory for relevant information"@,
    {
        "Search agent memory for relevant information"
    }

    /// The JSON schema of the arguments.
    pub fn parameters(&self) -> (r: &'static str)
        ensures
            r@ == "{\"type\":\"object\",\"properties\":{\"query\":{\"type\":\"string\",\"description\":\"Search query\"},\"limit\":{\"type\":\"integer\",\"description\":\"Maximum number of results (default: 10)\"}},\"required\":[\"query\"]}"@,
    {
        "{\"type\":\"object\",\"properties\":{\"query\":{\"type\":\"string\",\"description\":\"Search query\"},\"limit\":{\"type\":\"integer\",\"description\":\"Maximum number of results (default: 10)\"}},\"required\":[\"query\"]}"
    }

    /// The memory directory to search.
    pub fn memory_dir(&self) -> (d: String)
        ensures
            d@ == self.context().memory_dir@,
    {
        self.ctx.memory_dir.clone()
    }

    /// (query, limit): the query defaults to empty and the limit to
    /// `MEMORY_SEARCH_LIMIT`.
    pub fn request(&self, args: &str) -> (r: (String, usize))
        ensures
            r.0@ == str_arg_or_spec(args@, "query"@, ""@),
            r.1 == match json_u64_field(args@, "limit"@) {
                Some(n) => n as usize,
                None => MEMORY_SEARCH_LIMIT,
            },
    {
        let query = str_arg_or(args, "query", "");
        let limit = match json_get_u64(args, "limit") {
            Some(n) => n as usize,
            None => MEMORY_SEARCH_LIMIT,
        };
        (query, limit)
    }

    /// The reply when nothing matched.
    pub fn no_results(&self) -> (r: &'static str)
        ensures
            r@ == "no results found"@,
    {
        "no results found"
    }
}

/// Writes to the agent's memory.
pub struct MemoryWriteTool {
    ctx: Arc<ToolContext>,
}

impl MemoryWriteTool {
    pub fn new(ctx: Arc<ToolContext>) -> (t: Self)
        ensures
            t.context() == *ctx,
    {
        MemoryWriteTool { ctx }
    }

    /// The context the tool runs in.
    pub closed spec fn context(&self) -> ToolContext {
        *self.ctx
    }

    pub fn name(&self) -> (r: &'static str)
        ensures
            r@ == "write_memory"@,
    {
        "write_memory"
    }

    pub fn description(&self) -> (r: &'static str)
        ensures
            r@ == "Write content to agent memory"@,
    {
        "Write content to agent memory"
    }

    /// The JSON schema of the arguments.
    pub fn parameters(&self) -> (r: &'static str)
        ensures
            r@ == "{\"type\":\"object\",\"properties\":{\"file\":{\"type\":\"string\",\"description\":\"Memory file name (MEMORY.md or YYYY-MM-DD.md)\"},\"content\":{\"type\":\"string\",\"description\":\"Content to write\"}},\"required\":[\"file\",\"content\"]}"@,
    {
        "{\"type\":\"object\",\"properties\":{\"file\":{\"type\":\"string\",\"description\":\"Memory file name (MEMORY.md or YYYY-MM-DD.md)\"},\"content\":{\"type\":\"string\",\"description\":\"Content to write\"}},\"required\":[\"file\",\"content\"]}"
    }

    /// The memory directory to write in.
    pub fn memory_dir(&self) -> (d: String)
        ensures
            d@ == self.context().memory_dir@,
    {
        self.ctx.memory_dir.clone()
    }

    /// (file, content): the file defaults to `MEMORY.md`; the content is
    /// required.
    pub fn request(&self, args: &str) -> (r: Result<(String, String), AgentCorpError>)
        ensures
            match json_str_field(args@, "content"@) {
                Some(c) => r matches Ok((f, x)) && x@ == c
                    && f@ == str_arg_or_spec(args@, "file"@, "MEMORY.md"@),
                None => r matches Err(e)
                    && is_tool_error(e, "write_memory"@, missing_param_message("content"@)),
            },
    {
        let file = str_arg_or(args, "file", "MEMORY.md");
        let content = match required_str_arg(args, "content", "write_memory") {
            Ok(c) => c,
            Err(e) => return Err(e),
        };
        Ok((file, content))
    }

    /// The reply once the entry is written.
    pub fn reply(&self, file: &str) -> (r: String)
        ensures
            r@ == "written to "@ + file@,
    {
        concat("written to ", file)
    }
}

} // verus!
