//! Syntax definitions for languages beyond the highlighter's own, in the `.sublime-syntax`
//! format.

use vstd::prelude::*;

verus! {

/// Zig source files and Zig object notation.
pub const ZIG_SYNTAX: &'static str = r#"%YAML 1.2
---
name: Zig
file_extensions: [zig, zon]
scope: source.zig
contexts:
  main:
    - match: '//[/!].*'
      scope: comment.line.documentation.zig
    - match: '//.*'
      scope: comment.line.double-slash.zig
    - match: '\\\\.*'
      scope: string.unquoted.multiline.zig
    - match: '@?"(?:\\.|[^"\\])*"?'
      scope: string.quoted.double.zig
    - match: '''(?:\\(?:x\h\h|u\{\h+\}|.)|[^''\\])'''
      scope: string.quoted.single.zig
    - match: '@[A-Za-z_]\w*'
      scope: support.function.builtin.zig
    - match: '\b(fn)\s+([A-Za-z_]\w*)'
      captures:
        1: storage.type.function.zig
        2: entity.name.function.zig
    - match: '\b(?:if|else|switch|for|while|break|continue|return|defer|errdefer|try|catch|orelse|suspend|resume|nosuspend)\b'
      scope: keyword.control.zig
    - match: '\b(?:const|var|fn|pub|e[x]tern|export|inline|noinline|comptime|threadlocal|packed|align|allowzero|noalias|volatile|linksection|callconv|test|usingnamespace|addrspace)\b'
      scope: storage.modifier.zig
    - match: '\b(?:struct|enum|union|opaque|error)\b'
      scope: storage.type.zig
    - match: '\b(?:and|or)\b'
      scope: keyword.operator.word.zig
    - match: '\b(?:void|bool|noreturn|type|anyerror|anytype|anyopaque|comptime_int|comptime_float|[iu]\d+|[iu]size|f(?:16|32|64|80|128)|c_\w+)\b'
      scope: storage.type.primitive.zig
    - match: '\b(?:true|false|null|undefined)\b'
      scope: constant.language.zig
    - match: '\b(?:0x[\h_]+|0b[01_]+|0o[0-7_]+|\d[\d_]*(?:\.\d[\d_]*)?(?:[eE][+-]?\d+)?)\b'
      scope: constant.numeric.zig
    - match: '\.[A-Za-z_]\w*'
      scope: variable.other.member.zig
    - match: '[A-Za-z_]\w*(?=\s*\()'
      scope: variable.function.zig
    - match: '[-+*/%&|^!<>=~?]+'
      scope: keyword.operator.zig
"#;

/// TypeScript without embedded markup.
pub const TS_SYNTAX: &'static str = r#"%YAML 1.2
---
name: TypeScript
file_extensions: [ts, mts, cts]
scope: source.ts
contexts:
  main:
    - match: '//.*'
      scope: comment.line.double-slash.ts
    - match: '/\*'
      push: comment
    - match: '`'
      push: template
    - match: '"(?:\\.|[^"\\])*"?'
      scope: string.quoted.double.ts
    - match: '''(?:\\.|[^''\\])*''?'
      scope: string.quoted.single.ts
    - match: '@[A-Za-z_$][\w$]*'
      scope: variable.annotation.ts
    - match: '\b(function|class|interface|enum|namespace|module|type)\s+([A-Za-z_$][\w$]*)'
      captures:
        1: storage.type.ts
        2: entity.name.ts
    - match: '\b(?:if|else|switch|case|default|for|while|do|break|continue|return|throw|try|catch|finally|await|yield|import|export|from|as|with)\b'
      scope: keyword.control.ts
    - match: '\b(?:new|delete|typeof|instanceof|in|of|is|keyof|infer|satisfies|void)\b'
      scope: keyword.operator.word.ts
    - match: '\b(?:const|let|var|function|class|interface|enum|type|namespace|module|declare|abstract|readonly|public|private|protected|override|st[a]tic|as[y]nc|extends|implements|get|set)\b'
      scope: storage.modifier.ts
    - match: '\b(?:string|number|boolean|symbol|bigint|object|any|unknown|never)\b'
      scope: support.type.ts
    - match: '\b(?:true|false|null|undefined|NaN|Infinity)\b'
      scope: constant.language.ts
    - match: '\b(?:this|super)\b'
      scope: variable.language.ts
    - match: '\b(?:0[xX][\h_]+|0[bB][01_]+|0[oO][0-7_]+|\d[\d_]*(?:\.\d[\d_]*)?(?:[eE][+-]?\d+)?)n?\b'
      scope: constant.numeric.ts
    - match: '[A-Za-z_$][\w$]*(?=\s*\()'
      scope: variable.function.ts
    - match: '\b[A-Z][\w$]*'
      scope: support.class.ts
    - match: '=>|[-+*/%&|^!<>=~?:]+'
      scope: keyword.operator.ts
  comment:
    - meta_scope: comment.block.ts
    - match: '\*/'
      pop: true
  template:
    - meta_scope: string.template.ts
    - match: '`'
      pop: true
    - match: '\\.'
      scope: constant.character.escape.ts
    - match: '\$\{[^}]*\}'
      scope: source.embedded.ts
"#;

/// TypeScript with embedded markup.
pub const TSX_SYNTAX: &'static str = r#"%YAML 1.2
---
name: TSX
file_extensions: [tsx]
scope: source.tsx
contexts:
  main:
    - match: '//.*'
      scope: comment.line.double-slash.tsx
    - match: '/\*'
      push: comment
    - match: '`'
      push: template
    - match: '"(?:\\.|[^"\\])*"?'
      scope: string.quoted.double.tsx
    - match: '''(?:\\.|[^''\\])*''?'
      scope: string.quoted.single.tsx
    - match: '(</?)([A-Za-z][\w.-]*)'
      captures:
        1: punctuation.definition.tag.tsx
        2: entity.name.tag.tsx
    - match: '/>'
      scope: punctuation.definition.tag.tsx
    - match: '\b[A-Za-z_][\w-]*(?==[{"''])'
      scope: entity.other.attribute-name.tsx
    - match: '\b(function|class|interface|enum|namespace|module|type)\s+([A-Za-z_$][\w$]*)'
      captures:
        1: storage.type.tsx
        2: entity.name.tsx
    - match: '\b(?:if|else|switch|case|default|for|while|do|break|continue|return|throw|try|catch|finally|await|yield|import|export|from|as|with)\b'
      scope: keyword.control.tsx
    - match: '\b(?:new|delete|typeof|instanceof|in|of|is|keyof|infer|satisfies|void)\b'
      scope: keyword.operator.word.tsx
    - match: '\b(?:const|let|var|function|class|interface|enum|type|namespace|module|declare|abstract|readonly|public|private|protected|override|st[a]tic|as[y]nc|extends|implements|get|set)\b'
      scope: storage.modifier.tsx
    - match: '\b(?:string|number|boolean|symbol|bigint|object|any|unknown|never)\b'
      scope: support.type.tsx
    - match: '\b(?:true|false|null|undefined|NaN|Infinity)\b'
      scope: constant.language.tsx
    - match: '\b(?:this|super)\b'
      scope: variable.language.tsx
    - match: '\b(?:0[xX][\h_]+|0[bB][01_]+|0[oO][0-7_]+|\d[\d_]*(?:\.\d[\d_]*)?(?:[eE][+-]?\d+)?)n?\b'
      scope: constant.numeric.tsx
    - match: '[A-Za-z_$][\w$]*(?=\s*\()'
      scope: variable.function.tsx
    - match: '\b[A-Z][\w$]*'
      scope: support.class.tsx
    - match: '=>|[-+*/%&|^!<>=~?:]+'
      scope: keyword.operator.tsx
  comment:
    - meta_scope: comment.block.tsx
    - match: '\*/'
      pop: true
  template:
    - meta_scope: string.template.tsx
    - match: '`'
      pop: true
    - match: '\\.'
      scope: constant.character.escape.tsx
    - match: '\$\{[^}]*\}'
      scope: source.embedded.tsx
"#;

/// Elixir source files and scripts.
pub const ELIXIR_SYNTAX: &'static str = r#"%YAML 1.2
---
name: Elixir
file_extensions: [ex, exs]
scope: source.elixir
contexts:
  main:
    - match: '#.*'
      scope: comment.line.number-sign.elixir
    - match: '"""'
      push: heredoc
    - match: '"'
      push: string
    - match: '''(?:\\.|[^''\\])*''?'
      scope: string.quoted.single.elixir
    - match: '~[a-zA-Z](?:\([^)]*\)|\[[^\]]*\]|\{[^}]*\}|<[^>]*>|/[^/]*/|\|[^|]*\|)[a-z]*'
      scope: string.other.sigil.elixir
    - match: '@[a-z_]\w*'
      scope: variable.other.readwrite.module.elixir
    - match: '\b(defmodule|defprotocol|defimpl)\s+([A-Z][\w.]*)'
      captures:
        1: keyword.declaration.elixir
        2: entity.name.module.elixir
    - match: '\b(defp?|defmacrop?|defguardp?|defdelegate)\s+([a-z_]\w*[?!]?)'
      captures:
        1: keyword.declaration.elixir
        2: entity.name.function.elixir
    - match: '\b(?:do|end|fn|if|unless|else|cond|case|for|with|try|rescue|catch|after|raise|throw|receive|quote|unquote|import|require|alias|use|when|defstruct|defexception)\b(?!:)'
      scope: keyword.control.elixir
    - match: '\b(?:and|or|not|in)\b'
      scope: keyword.operator.word.elixir
    - match: '\b(?:true|false|nil)\b'
      scope: constant.language.elixir
    - match: ':(?:[A-Za-z_]\w*[?!]?|"(?:\\.|[^"\\])*")'
      scope: constant.other.symbol.elixir
    - match: '\b[a-z_]\w*[?!]?:(?=\s)'
      scope: constant.other.keyword.elixir
    - match: '\b[A-Z]\w*'
      scope: support.class.elixir
    - match: '\b(?:0x\h+|0b[01]+|0o[0-7]+|\d[\d_]*(?:\.\d[\d_]*)?(?:[eE][+-]?\d+)?)\b'
      scope: constant.numeric.elixir
    - match: '[a-z_]\w*[?!]?(?=\()'
      scope: variable.function.elixir
    - match: '\|>|->|<-|=>|[-+*/&|^!<>=~.]+'
      scope: keyword.operator.elixir
  string:
    - meta_scope: string.quoted.double.elixir
    - match: '"'
      pop: true
    - match: '\\.'
      scope: constant.character.escape.elixir
    - match: '#\{[^}]*\}'
      scope: source.embedded.elixir
  heredoc:
    - meta_scope: string.quoted.heredoc.elixir
    - match: '"""'
      pop: true
    - match: '\\.'
      scope: constant.character.escape.elixir
    - match: '#\{[^}]*\}'
      scope: source.embedded.elixir
"#;

/// The languages that come with the viewer: Zig, TypeScript, TypeScript with markup, Elixir.
pub const BUNDLED: [&'static str; 4] = [ZIG_SYNTAX, TS_SYNTAX, TSX_SYNTAX, ELIXIR_SYNTAX];

} // verus!
