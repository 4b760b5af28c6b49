# albert

The logic of an API-mocking tool, verified with Verus: importing OpenAPI
documents and cURL commands into a canonical collection, synthesizing and
validating mock payloads, the mock gateway's decisions (route matching,
required headers, rate limits, templating, response planning, request
fingerprints), the OpenAPI export of the live collections, the prompt and
repair steps of example generation, and the diff between two imports.

- `src/` is the library; every function there carries a contract that
  Verus proves. Calls into outside crates (serde_json, serde_yaml,
  openapiv3, shlex, url, regex) go through small trusted wrappers whose
  contracts say what those crates document.
- `tests/` runs the library on concrete values.
- `app/` is the command line around it: it reads files and the
  environment and prints what the library returns.
