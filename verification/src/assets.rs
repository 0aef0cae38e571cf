//! The styles and the scripts of the pages.
use vstd::prelude::*;

verus! {

/// The styles of all pages.
pub const CSS: &'static str = r#"<style>
:root {
  --bg: #f3f4f6;
  --card-bg: #ffffff;
  --text: #1f2937;
  --text-muted: #6b7280;
  --border: #e5e7eb;

  --user-bg: #dbeafe;
  --user-border: #2563eb;
  --user-label: #1d4ed8;

  --assistant-bg: #ffffff;
  --assistant-border: #6b7280;
  --assistant-label: #374151;

  --system-bg: #fef3c7;
  --system-border: #d97706;
  --system-label: #92400e;

  --tool-result-bg: #d1fae5;
  --tool-result-border: #059669;
  --tool-result-label: #065f46;

  --thinking-bg: #fef9c3;
  --thinking-border: #eab308;
  --thinking-label: #854d0e;

  --tool-call-bg: #ede9fe;
  --tool-call-border: #7c3aed;

  --code-bg: #1e293b;
  --code-text: #e2e8f0;
  --code-border: #334155;

  --inline-code-bg: #f1f5f9;
  --inline-code-text: #0f172a;

  --diff-add-bg: #1a2e1a;
  --diff-add-text: #7ee787;
  --diff-remove-bg: #2e1a1a;
  --diff-remove-text: #f47067;
}

* { box-sizing: border-box; margin: 0; padding: 0; }

body {
  font-family: -apple-system, BlinkMacSystemFont, "Segoe UI", Roboto, "Helvetica Neue", Arial, sans-serif;
  background: var(--bg);
  color: var(--text);
  line-height: 1.6;
  font-size: 15px;
}

.container {
  max-width: 860px;
  margin: 0 auto;
  padding: 24px 16px;
}

/* ----- Header ----- */
.session-header {
  background: var(--card-bg);
  border: 1px solid var(--border);
  border-radius: 12px;
  padding: 24px;
  margin-bottom: 24px;
}

.session-header h1 {
  font-size: 1.5rem;
  margin-bottom: 12px;
  color: var(--text);
}

.session-meta {
  display: flex;
  flex-wrap: wrap;
  gap: 8px 20px;
  font-size: 0.85rem;
  color: var(--text-muted);
}

.session-meta code {
  background: var(--inline-code-bg);
  padding: 1px 5px;
  border-radius: 4px;
  font-size: 0.82rem;
}

/* ----- Messages ----- */
.message {
  border-radius: 10px;
  padding: 16px 20px;
  margin-bottom: 16px;
  border-left: 4px solid transparent;
  position: relative;
}

.message.user {
  background: var(--user-bg);
  border-left-color: var(--user-border);
}
.message.user .role-label { color: var(--user-label); }

.message.assistant {
  background: var(--assistant-bg);
  border: 1px solid var(--border);
  border-left: 4px solid var(--assistant-border);
}
.message.assistant .role-label { color: var(--assistant-label); }

.message.system {
  background: var(--system-bg);
  border-left-color: var(--system-border);
}
.message.system .role-label { color: var(--system-label); }

.message.tool-result {
  background: var(--tool-result-bg);
  border-left-color: var(--tool-result-border);
}
.message.tool-result .role-label { color: var(--tool-result-label); }

.message.thinking {
  background: var(--thinking-bg);
  border-left-color: var(--thinking-border);
}
.message.thinking .role-label { color: var(--thinking-label); }

.thinking-details { width: 100%; }
.thinking-details > summary {
  cursor: pointer;
  user-select: none;
  list-style: none;
}
.thinking-details > summary::-webkit-details-marker { display: none; }
.thinking-details > summary .role-label::before {
  content: '\25BC  ';
  font-size: 0.65rem;
  vertical-align: 1px;
}
.thinking-details:not([open]) > summary .role-label::before {
  content: '\25B6  ';
}

.message-header {
  margin-bottom: 10px;
}

.role-label {
  font-weight: 700;
  font-size: 0.78rem;
  text-transform: uppercase;
  letter-spacing: 0.05em;
}

/* ----- Model badge ----- */
.model-badge {
  display: inline-block;
  font-size: 0.7rem;
  font-weight: 500;
  color: var(--text-muted);
  background: rgba(0,0,0,0.05);
  padding: 1px 8px;
  border-radius: 10px;
  margin-left: 8px;
  vertical-align: middle;
  font-style: italic;
}

/* ----- Token badges ----- */
.token-badge {
  display: inline-block;
  font-size: 0.72rem;
  font-weight: 500;
  color: var(--text-muted);
  background: rgba(0,0,0,0.06);
  padding: 1px 8px;
  border-radius: 10px;
  margin-left: 8px;
  vertical-align: middle;
  cursor: help;
}

.token-running {
  font-size: 0.7rem;
  color: var(--text-muted);
  opacity: 0.7;
  cursor: help;
}

/* ----- Content ----- */
.message-content {
  overflow-wrap: break-word;
  word-break: break-word;
}

.message-content p {
  margin-bottom: 0.75em;
  white-space: pre-wrap;
}

.message-content p:last-child { margin-bottom: 0; }

.message-content h1,
.message-content h2,
.message-content h3,
.message-content h4 {
  margin-top: 1em;
  margin-bottom: 0.5em;
}

.message-content h1 { font-size: 1.3rem; }
.message-content h2 { font-size: 1.15rem; }
.message-content h3 { font-size: 1.05rem; }

.message-content ul,
.message-content ol {
  margin: 0.5em 0 0.75em 1.5em;
}

.message-content li { margin-bottom: 0.3em; }

.message-content blockquote {
  border-left: 3px solid var(--border);
  padding-left: 12px;
  color: var(--text-muted);
  margin: 0.75em 0;
}

.message-content table {
  border-collapse: collapse;
  margin: 0.75em 0;
  font-size: 0.9em;
  width: 100%;
}

.message-content th,
.message-content td {
  border: 1px solid var(--border);
  padding: 6px 10px;
  text-align: left;
}

.message-content th {
  background: var(--bg);
  font-weight: 600;
}

/* ----- Code blocks ----- */
.message-content pre {
  background: var(--code-bg);
  color: var(--code-text);
  padding: 14px 16px;
  border-radius: 8px;
  border: 1px solid var(--code-border);
  overflow-x: auto;
  margin: 0.75em 0;
  font-size: 0.88rem;
  line-height: 1.5;
}

.message-content pre code {
  background: none;
  color: inherit;
  padding: 0;
  border-radius: 0;
  font-size: inherit;
}

pre.highlighted-code {
  background: var(--code-bg);
  color: var(--code-text);
  padding: 14px 16px;
  border-radius: 8px;
  border: 1px solid var(--code-border);
  overflow-x: auto;
  margin: 0.75em 0;
  font-size: 0.88rem;
  line-height: 1.5;
  font-family: "SF Mono", "Cascadia Code", "Fira Code", Menlo, Consolas, monospace;
}

.message-content code {
  background: var(--inline-code-bg);
  color: var(--inline-code-text);
  padding: 2px 6px;
  border-radius: 4px;
  font-size: 0.88em;
  font-family: "SF Mono", "Cascadia Code", "Fira Code", Menlo, Consolas, monospace;
}

/* ----- System prompt (top of page, collapsed) ----- */
.system-prompt {
  background: var(--system-bg);
  border: 1px solid var(--system-border);
  border-radius: 10px;
  padding: 16px 20px;
  margin-bottom: 16px;
}

.system-prompt > summary {
  cursor: pointer;
  font-weight: 700;
  font-size: 0.85rem;
  text-transform: uppercase;
  letter-spacing: 0.05em;
  color: var(--system-label);
  user-select: none;
  list-style: none;
}

.system-prompt > summary::-webkit-details-marker { display: none; }
.system-prompt > summary::before {
  content: '\25B6  ';
  font-size: 0.65rem;
  vertical-align: 1px;
}
.system-prompt[open] > summary::before {
  content: '\25BC  ';
}

.system-prompt-content {
  margin-top: 12px;
  font-size: 0.88rem;
  max-height: 500px;
  overflow-y: auto;
}

/* ----- Tools reference panel ----- */
.tools-reference {
  background: var(--card-bg);
  border: 1px solid var(--border);
  border-radius: 10px;
  padding: 16px 20px;
  margin-bottom: 16px;
}

.tools-reference > summary {
  cursor: pointer;
  font-weight: 700;
  font-size: 0.85rem;
  text-transform: uppercase;
  letter-spacing: 0.05em;
  color: var(--tool-call-border);
  user-select: none;
  list-style: none;
}

.tools-reference > summary::-webkit-details-marker { display: none; }
.tools-reference > summary::before {
  content: '\25B6  ';
  font-size: 0.65rem;
  vertical-align: 1px;
}
.tools-reference[open] > summary::before {
  content: '\25BC  ';
}

.tools-reference-content {
  margin-top: 12px;
  display: flex;
  flex-direction: column;
  gap: 8px;
}

.tool-ref-item {
  background: var(--bg);
  border: 1px solid var(--border);
  border-radius: 6px;
  padding: 10px 12px;
}

.tool-ref-name {
  font-weight: 700;
  font-size: 0.88rem;
  color: var(--tool-call-border);
  margin-bottom: 4px;
}

.tool-ref-desc {
  font-size: 0.82rem;
  color: var(--text-muted);
  line-height: 1.4;
}

/* Individual tool detail collapsible sections */
.tool-ref-item-details {
  background: var(--bg);
  border: 1px solid var(--border);
  border-radius: 6px;
  overflow: hidden;
}

.tool-ref-item-details > summary {
  cursor: pointer;
  padding: 10px 12px;
  user-select: none;
  list-style: none;
}

.tool-ref-item-details > summary::-webkit-details-marker { display: none; }
.tool-ref-item-details > summary::before {
  content: '\25B6  ';
  font-size: 0.6rem;
  vertical-align: 1px;
  color: var(--text-muted);
}
.tool-ref-item-details[open] > summary::before {
  content: '\25BC  ';
}

.tool-ref-short {
  font-size: 0.82rem;
  color: var(--text-muted);
  font-weight: 400;
}

.tool-ref-full {
  padding: 0 12px 12px;
  font-size: 0.85rem;
  line-height: 1.5;
  border-top: 1px solid var(--border);
}

.tool-ref-full p { margin-bottom: 0.5em; }
.tool-ref-full p:last-child { margin-bottom: 0; }
.tool-ref-full ul, .tool-ref-full ol { margin: 0.3em 0 0.5em 1.5em; }
.tool-ref-full li { margin-bottom: 0.2em; }
.tool-ref-full code {
  background: var(--inline-code-bg);
  padding: 1px 5px;
  border-radius: 3px;
  font-size: 0.85em;
}
.tool-ref-full pre {
  background: var(--code-bg);
  color: var(--code-text);
  padding: 10px 14px;
  border-radius: 6px;
  border: 1px solid var(--code-border);
  overflow-x: auto;
  margin: 0.5em 0;
  font-size: 0.82rem;
}

/* ----- Tool parameters (from JSON Schema) ----- */
.tool-params {
  margin-top: 0.5em;
  padding-top: 0.5em;
  border-top: 1px solid var(--border);
}

.tool-params-header {
  font-weight: 600;
  font-size: 0.82rem;
  margin-bottom: 0.3em;
  color: var(--text);
}

.tool-params-list {
  margin: 0.2em 0 0.5em 1.5em;
  font-size: 0.82rem;
  line-height: 1.5;
}

.tool-params-list li { margin-bottom: 0.2em; }
.tool-params-list code {
  background: var(--inline-code-bg);
  padding: 1px 5px;
  border-radius: 3px;
  font-size: 0.85em;
}

.tool-param-type {
  color: var(--text-muted);
  font-size: 0.8em;
}

/* ----- Tool calls ----- */
.tool-call {
  background: var(--tool-call-bg);
  border: 1px solid var(--tool-call-border);
  border-radius: 8px;
  padding: 12px 16px;
  margin-top: 12px;
}

.tool-call-header {
  font-size: 0.82rem;
  color: var(--tool-call-border);
  margin-bottom: 8px;
  text-transform: uppercase;
  letter-spacing: 0.04em;
}

.tool-args {
  background: var(--code-bg) !important;
  color: var(--code-text) !important;
  padding: 10px 14px !important;
  border-radius: 6px;
  font-size: 0.82rem !important;
  max-height: 300px;
  overflow-y: auto;
}

.tool-args-bare {
  font-family: "SF Mono", "Cascadia Code", "Fira Code", Menlo, Consolas, monospace;
}

.tool-prompt {
  color: var(--tool-call-border);
  font-weight: bold;
  user-select: none;
}

.tool-args-kv {
  font-size: 0.88rem;
  padding: 4px 0;
  font-family: "SF Mono", "Cascadia Code", "Fira Code", Menlo, Consolas, monospace;
}

.tool-args-kv code {
  background: var(--inline-code-bg);
  padding: 1px 5px;
  border-radius: 3px;
  font-size: 0.85em;
}

.tool-args-kv-group {
  font-size: 0.88rem;
  padding: 4px 0;
}

.tool-arg-key {
  font-weight: 600;
  color: var(--tool-call-border);
  font-size: 0.82rem;
}

.tool-arg-line {
  padding: 2px 0;
  font-family: "SF Mono", "Cascadia Code", "Fira Code", Menlo, Consolas, monospace;
}

.tool-arg-line code {
  background: var(--inline-code-bg);
  padding: 1px 5px;
  border-radius: 3px;
  font-size: 0.85em;
}

/* ----- Diff rendering for Edit tool calls ----- */
.tool-diff {
  background: var(--code-bg) !important;
  color: var(--code-text) !important;
  padding: 10px 14px !important;
  border-radius: 6px;
  font-size: 0.82rem !important;
  max-height: 400px;
  overflow-y: auto;
  margin-top: 6px;
}

.diff-remove {
  display: block;
  color: var(--diff-remove-text);
  background: var(--diff-remove-bg);
  padding: 0 4px;
  margin: 0 -4px;
}

.diff-add {
  display: block;
  color: var(--diff-add-text);
  background: var(--diff-add-bg);
  padding: 0 4px;
  margin: 0 -4px;
}

/* ----- Assistant tool group (nesting) ----- */
.assistant-tool-group {
  margin-top: 12px;
  margin-left: 16px;
  padding-left: 12px;
  border-left: 2px solid var(--tool-call-border);
}

/* ----- Tool result details (collapsible, default collapsed) ----- */
.tool-result-details {
  margin-top: 10px;
  border: 1px solid var(--tool-result-border);
  border-radius: 6px;
  overflow: hidden;
}

.tool-result-details > summary {
  cursor: pointer;
  padding: 8px 12px;
  background: var(--tool-result-bg);
  font-weight: 600;
  font-size: 0.82rem;
  color: var(--tool-result-label);
  user-select: none;
  list-style: none;
}

.tool-result-details > summary::-webkit-details-marker { display: none; }
.tool-result-details > summary::before {
  content: '\25B6  ';
  font-size: 0.6rem;
  vertical-align: 1px;
}
.tool-result-details[open] > summary::before {
  content: '\25BC  ';
}

.tool-result-content {
  padding: 0;
}

.tool-result-pre {
  background: var(--code-bg) !important;
  color: var(--code-text) !important;
  padding: 10px 14px !important;
  margin: 0 !important;
  border-radius: 0;
  border: none !important;
  font-size: 0.82rem !important;
  max-height: 400px;
  overflow-y: auto;
}

/* ----- Context items ----- */
.context-items {
  margin-bottom: 10px;
  font-size: 0.85rem;
}

.context-items summary {
  cursor: pointer;
  color: var(--text-muted);
  font-weight: 600;
  user-select: none;
}

.context-item {
  background: var(--bg);
  border: 1px solid var(--border);
  border-radius: 6px;
  padding: 10px 12px;
  margin-top: 8px;
}

.context-name {
  font-weight: 600;
  font-size: 0.85rem;
  margin-bottom: 2px;
}

.context-desc {
  color: var(--text-muted);
  font-size: 0.82rem;
  margin-bottom: 6px;
}

.context-content {
  background: var(--code-bg) !important;
  color: var(--code-text) !important;
  padding: 8px 12px !important;
  border-radius: 6px;
  font-size: 0.8rem !important;
  max-height: 500px;
  overflow-y: auto;
}

/* ----- Footer ----- */
footer {
  text-align: center;
  padding: 24px 0 8px;
  font-size: 0.8rem;
  color: var(--text-muted);
}

/* ----- Dark mode ----- */
@media (prefers-color-scheme: dark) {
  :root:not([data-theme="light"]) {
    --bg: #111827;
    --card-bg: #1f2937;
    --text: #f3f4f6;
    --text-muted: #9ca3af;
    --border: #374151;

    --user-bg: #1e3a5f;
    --user-border: #3b82f6;
    --user-label: #93c5fd;

    --assistant-bg: #1f2937;
    --assistant-border: #9ca3af;
    --assistant-label: #d1d5db;

    --system-bg: #422006;
    --system-border: #f59e0b;
    --system-label: #fcd34d;

    --tool-result-bg: #064e3b;
    --tool-result-border: #10b981;
    --tool-result-label: #6ee7b7;

    --thinking-bg: #422006;
    --thinking-border: #eab308;
    --thinking-label: #fde68a;

    --tool-call-bg: #2e1065;
    --tool-call-border: #a78bfa;

    --code-bg: #0f172a;
    --code-text: #e2e8f0;
    --code-border: #1e293b;

    --inline-code-bg: #374151;
    --inline-code-text: #e5e7eb;

    --diff-add-bg: #1a2e1a;
    --diff-add-text: #7ee787;
    --diff-remove-bg: #2e1a1a;
    --diff-remove-text: #f47067;
  }
}

[data-theme="dark"] {
    --bg: #111827;
    --card-bg: #1f2937;
    --text: #f3f4f6;
    --text-muted: #9ca3af;
    --border: #374151;

    --user-bg: #1e3a5f;
    --user-border: #3b82f6;
    --user-label: #93c5fd;

    --assistant-bg: #1f2937;
    --assistant-border: #9ca3af;
    --assistant-label: #d1d5db;

    --system-bg: #422006;
    --system-border: #f59e0b;
    --system-label: #fcd34d;

    --tool-result-bg: #064e3b;
    --tool-result-border: #10b981;
    --tool-result-label: #6ee7b7;

    --thinking-bg: #422006;
    --thinking-border: #eab308;
    --thinking-label: #fde68a;

    --tool-call-bg: #2e1065;
    --tool-call-border: #a78bfa;

    --code-bg: #0f172a;
    --code-text: #e2e8f0;
    --code-border: #1e293b;

    --inline-code-bg: #374151;
    --inline-code-text: #e5e7eb;

    --diff-add-bg: #1a2e1a;
    --diff-add-text: #7ee787;
    --diff-remove-bg: #2e1a1a;
    --diff-remove-text: #f47067;
}

/* ----- Theme toggle button ----- */
.theme-toggle {
  position: fixed;
  top: 12px;
  right: 12px;
  z-index: 100;
  background: var(--card-bg);
  border: 1px solid var(--border);
  border-radius: 8px;
  padding: 6px 10px;
  cursor: pointer;
  font-size: 1rem;
  line-height: 1;
  color: var(--text);
  box-shadow: 0 1px 3px rgba(0,0,0,0.1);
}
.theme-toggle:hover { opacity: 0.8; }

/* ----- Responsive ----- */
@media (max-width: 600px) {
  .container { padding: 12px 8px; }
  .session-header { padding: 16px; }
  .message { padding: 12px 14px; }
  .session-meta { flex-direction: column; gap: 4px; }
}
</style>"#;

/// The script of a transcript.
pub const JS: &'static str = r#"<script>
document.addEventListener('DOMContentLoaded', function() {
  // Theme toggle
  (function() {
    var html = document.documentElement;
    var stored = localStorage.getItem('ct-theme');
    if (stored) html.setAttribute('data-theme', stored);
    var btn = document.querySelector('.theme-toggle');
    if (btn) {
      function updateIcon() {
        var theme = html.getAttribute('data-theme');
        if (!theme) {
          // auto — check OS preference
          var dark = window.matchMedia('(prefers-color-scheme: dark)').matches;
          btn.textContent = dark ? '\u2600\uFE0F' : '\uD83C\uDF19';
          btn.title = 'Theme: auto (' + (dark ? 'dark' : 'light') + '). Click to toggle.';
        } else if (theme === 'dark') {
          btn.textContent = '\u2600\uFE0F';
          btn.title = 'Theme: dark. Click for light.';
        } else {
          btn.textContent = '\uD83C\uDF19';
          btn.title = 'Theme: light. Click for dark.';
        }
      }
      btn.addEventListener('click', function() {
        var current = html.getAttribute('data-theme');
        if (!current) {
          var dark = window.matchMedia('(prefers-color-scheme: dark)').matches;
          var next = dark ? 'light' : 'dark';
        } else if (current === 'dark') {
          var next = 'light';
        } else {
          var next = 'dark';
        }
        html.setAttribute('data-theme', next);
        localStorage.setItem('ct-theme', next);
        updateIcon();
      });
      updateIcon();
      window.matchMedia('(prefers-color-scheme: dark)').addEventListener('change', updateIcon);
    }
  })();

  // Add language labels to fenced code blocks
  document.querySelectorAll('pre > code[class*="language-"]').forEach(function(el) {
    var lang = el.className.match(/language-(\S+)/);
    if (lang) {
      var label = document.createElement('div');
      label.textContent = lang[1];
      label.style.cssText = 'position:absolute;top:6px;right:10px;font-size:0.7rem;color:#94a3b8;text-transform:uppercase;letter-spacing:0.05em;';
      el.parentElement.style.position = 'relative';
      el.parentElement.appendChild(label);
    }
  });

  // Truncation for long blocks
  document.querySelectorAll('.message-content pre, .tool-args, .context-content, .tool-result-pre').forEach(function(el) {
    if (el.scrollHeight > 350) {
      el.style.maxHeight = '300px';
      el.style.overflow = 'hidden';
      el.style.position = 'relative';

      var btn = document.createElement('button');
      btn.textContent = 'Show more';
      btn.style.cssText = 'display:block;margin:6px auto 0;padding:4px 16px;border:1px solid var(--border);border-radius:6px;background:var(--card-bg);color:var(--text-muted);cursor:pointer;font-size:0.8rem;';
      btn.addEventListener('click', function() {
        if (el.style.maxHeight === '300px') {
          el.style.maxHeight = 'none';
          el.style.overflow = 'auto';
          btn.textContent = 'Show less';
        } else {
          el.style.maxHeight = '300px';
          el.style.overflow = 'hidden';
          btn.textContent = 'Show more';
        }
      });
      el.parentElement.insertBefore(btn, el.nextSibling);
    }
  });

  // Expand/Collapse all toggle for tool details
  var transcript = document.querySelector('.transcript');
  if (transcript) {
    var detailsEls = transcript.querySelectorAll('details.tool-result-details, details.thinking-details');
    if (detailsEls.length > 2) {
      var toggleBtn = document.createElement('button');
      toggleBtn.textContent = 'Expand all details';
      toggleBtn.className = 'expand-collapse-toggle';
      toggleBtn.style.cssText = 'display:block;margin:0 auto 16px;padding:6px 20px;border:1px solid var(--border);border-radius:6px;background:var(--card-bg);color:var(--text-muted);cursor:pointer;font-size:0.82rem;';
      var allExpanded = false;
      toggleBtn.addEventListener('click', function() {
        allExpanded = !allExpanded;
        detailsEls.forEach(function(d) {
          d.open = allExpanded;
        });
        toggleBtn.textContent = allExpanded ? 'Collapse all details' : 'Expand all details';
      });
      transcript.parentElement.insertBefore(toggleBtn, transcript);
    }
  }
});
</script>"#;

} // verus!
