use guard_lang::exprs::{ArrayExpr, BinaryExpr, BinaryOperator, Expr, QueryExpr, RuleClauseExpr, StringExpr};
use guard_lang::parser::grammar::{
    parse_and_conjunction, parse_rule_clause_expr, parse_rule_expr, parse_rules_file, parse_when_block_expr,
};
use guard_lang::parser::Span;
use guard_lang::visitor::Visitor;

fn span(text: &str) -> Span {
    Span::new_extra(text, "")
}

struct ExpectationAssertions {}

impl<'expr> Visitor<'expr> for ExpectationAssertions {
    type Value = ();
    type Error = ();

    fn visit_rule_clause(self, _expr: &'expr Expr, rule_clause: &'expr RuleClauseExpr) -> Result<Self::Value, Self::Error> {
        let known = [
            "s3_encryption_at_rest",
            "ebs_volume_encryption_at_rest",
            "check_allowed_types",
            "ddb_encryption_at_rest",
            "databases_encryption_at_rest",
        ];
        assert_eq!(known.contains(&rule_clause.name.as_str()), true);
        if let Some(message) = &rule_clause.message {
            assert_eq!(message, "s3 not encrypted");
        }
        if let Some(parameters) = &rule_clause.parameters {
            for each in parameters {
                each.accept(ExpectationAssertions {})?;
            }
        }
        Ok(())
    }

    fn visit_select(self, _expr: &'expr Expr, value: &'expr QueryExpr) -> Result<Self::Value, Self::Error> {
        for each in &value.parts {
            each.accept(ExpectationAssertions {})?;
        }
        Ok(())
    }

    fn visit_binary_operation(self, _expr: &'expr Expr, value: &'expr BinaryExpr) -> Result<Self::Value, Self::Error> {
        assert_eq!(
            value.operator == BinaryOperator::And
                || value.operator == BinaryOperator::Or
                || value.operator == BinaryOperator::Equals,
            true
        );
        value.lhs.accept(ExpectationAssertions {})?;
        value.rhs.accept(ExpectationAssertions {})?;
        Ok(())
    }

    fn visit_array(self, _expr: &'expr Expr, value: &'expr ArrayExpr) -> Result<Self::Value, Self::Error> {
        assert_eq!(value.elements.is_empty(), true);
        Ok(())
    }

    fn visit_string(self, _expr: &'expr Expr, value: &'expr StringExpr) -> Result<Self::Value, Self::Error> {
        assert_eq!(
            value.value == "Type" || value.value == "Resources" || value.value == "*" || value.value == "AWS::S3::Bucket",
            true,
            "Unexpected {}",
            value.value
        );
        Ok(())
    }

    fn visit_any(self, expr: &'expr Expr) -> Result<Self::Value, Self::Error> {
        panic!("unexpected {:?}", expr)
    }
}

#[test]
fn test_rule_clause_expr() {
    let success = [
        "s3_encryption_at_rest",
        r#"s3_encryption_at_rest && ebs_volume_encryption_at_rest"#,
        r#"s3_encryption_at_rest
           ebs_volume_encryption_at_rest"#,
        r#"s3_encryption_at_rest <<s3 not encrypted>>
           ebs_volume_encryption_at_rest"#,
        r#"s3_encryption_at_rest <<s3 not encrypted>> or
           ebs_volume_encryption_at_rest and
           ddb_encryption_at_rest or databases_encryption_at_rest
           "#,
        r#"s3_encryption_at_rest<<s3 not encrypted>>||ebs_volume_encryption_at_rest"#,
        r#"s3_encryption_at_rest<<s3 not encrypted>>||ebs_volume_encryption_at_rest
           Type == 'AWS::S3::Bucket'
        "#,
        r#"check_allowed_types(Resources.*.Type || [])"#
    ];
    for to_parse in success.iter() {
        let sp = span(to_parse);
        let result = parse_rule_clause_expr(&sp, 0);
        assert_eq!(result.is_ok(), true, "{} {:?}", to_parse, result);
        let result = parse_and_conjunction(&sp, 0);
        assert_eq!(result.is_ok(), true, "{} {:?}", to_parse, result);
        let expr = result.unwrap().1;
        let result = expr.accept(ExpectationAssertions {});
        assert_eq!(result.is_ok(), true, "{:?}", result);
    }

    for to_parse in ["", "Resource EXISTS", "Type == /S3/", "not rule"].iter() {
        let sp = span(to_parse);
        let result = parse_rule_clause_expr(&sp, 0);
        assert_eq!(result.is_err(), true, "{} {:?}", to_parse, result);
    }
}

#[test]
fn test_when_block() {
    let success = [
        r#"when Resources EXISTS {
            let keys = keys Resources
            %keys == /^MyPrefix/
         }"#,
        r#"WHEN %queues !EMPTY { %queues != '*' }"#,
        "when Resources.*.Type in %allowed_types { Resources.*.Properties.Tags !EMPTY }",
        r#"WHEN %version == /2010/ && %types in %allowed_types {
                Resources.*.Properties EXISTS
        }
        "#,
        r#"when no_sqs_queue_dlqs_must_not_exists {
             let qnames = keys %sqs_queues
             let refs = %dlqs.DeadLetterConfig.Arn.'Fn::GetAtt'
             %refs[0] in %qnames
             %refs[1] == "Arn"
          }
 "#,
        r#"when [ let types = Resources.*.Type
                  let version = AWSTemplateVersion
                  %types in Parameters.AllowedTypes && %version == /2020/ ] {
              Resources.*.Properties EXISTS
           }
        "#,
        r#"when [ let resources = Resources.*
                  let names     = keys %resources

                  %names == /^r/
                  %resources {
                    Type in %allowed_types
                    Properties EXISTS
                  }] {
              Resources.*.Properties.Tags EXISTS
           }
        "#,
        r#"when (Resources EXISTS && Resources.* !EMPTY) or (resourceType EXISTS && configuration EXISTS) {
            check_tags(Resources.*.Properties.Tags or configuration.Tags)
        }"#
    ];
    for to_parse in success.iter() {
        let sp = span(to_parse);
        let result = parse_when_block_expr(&sp, 0);
        assert_eq!(result.is_ok(), true, "{} {:?}", to_parse, result);
    }
}

#[test]
fn test_rule_expr() {
    let success = [
        r###"rule check_certificate_local_ca_association(ca_references, expected_logical_ids) {
    %ca_references {
        Ref in %expected_logical_ids
            << Ref not associated with an AWS::ACMPCA::CertificateAuthority >>

        or

        'Fn::GetAtt' {
            this[0] in %expected_logical_ids
                << Ref not associated with an AWS::ACMPCA::CertificateAuthority >>

            this[1] == 'Arn'
                << Attribute for must be 'Arn' >>
        }
    }
}"###,


r###"rule check_acm_non_pca_certs when %acm_non_pca_certs not empty {
    %acm_non_pca_certs.Type == 'AWS::CertificateManager::Certificate'
}"###,
        r###"rule check_acm_certs_transparency {
    %certificates[ Type == 'AWS::CertificateManager::Certificate' ] {
        Properties {
            CertificateTransparencyLoggingPreference not exists or
            CertificateTransparencyLoggingPreference == 'ENABLED'
        }
    }
}
        "###,
        r###"rule check_local(references, expected_logical_ids, attribute) when Check.AssertLocal == true {
    %references {
        Ref in %expected_logical_ids ||
        'Fn::GetAtt' {
            this[0] in %expected_logical_ids && this[1] == %attribute
        }
    }
}

        "###
    ];
    for to_parse in success.iter() {
        let sp = span(to_parse);
        let result = parse_rule_expr(&sp, 0);
        assert_eq!(result.is_ok(), true, "{} {:?}", to_parse, result);
    }
}

#[test]
fn test_rules_file() {
    let success = [r###"
#
# Constants
#
let certificate_association_resource_types      = [
    'AWS::CertificateManager::Certificate',
    'AWS::ACMPCA::Certificate',
    'AWS::ACMPCA::CertificateAuthorityActivation'
]

#
# NIST controls for this check
#
let nist_controls       = [
    "NIST-800-53-IA-5",
    "NIST-800-53-SC-17"
]

#
# Assignments
#
let acm_private_cas     = Resources[ Type == 'AWS::ACMPCA::CertificateAuthority' ]
let acm_private_cas_ids = keys %acm_private_cas
let certificates        = Resources[ Type in %certificate_association_resource_types ]
let acm_pca_certs       = %certificates[ Properties.CertificateAuthorityArn exists ]
let acm_non_pca_certs   = %certificates[ Properties.CertificateAuthorityArn not exists ]

rule check_local(references, expected_logical_ids, attribute) when Check.AssertLocal == true {
    %references {
        Ref in %expected_logical_ids ||
        'Fn::GetAtt' {
            this[0] in %expected_logical_ids && this[1] == %attribute
        }
    }
}

rule check_acm_non_pca_certs when %acm_non_pca_certs not empty {
    %acm_non_pca_certs.Type == 'AWS::CertificateManager::Certificate'
}

rule check_acm_pca_certs when %acm_pca_certs not empty {
    %acm_private_cas not empty
        << No private ACM PCAs configured in stack to associate >>
    #
    # If there are not ACM PCA in the template, then acm_private_ca_names will not
    # exist to check against
    #
    check_local(
        %acm_pca_certs.Properties.CertificateAuthorityArn,
        %acm_private_ca_ids
    )
}

rule check_acm_certs_transparency {
    %certificates[ Type == 'AWS::CertificateManager::Certificate' ] {
        Properties {
            CertificateTransparencyLoggingPreference not exists or
            CertificateTransparencyLoggingPreference == 'ENABLED'
        }
    }
}
    "###,
        r###"rule deny_kms_key_checks {
    Resources[ key_id | Type == 'AWS::KMS::Key' ].Properties {
        check_kms_key_usage_in_account(KeyPolicy.Statement[*] || KeyPolicy.Statement)
            <<KMS service actions are not DENIED access from outside account explicitly on %key_id>>
        EnableKeyRotation == true
            <<ALL KMS keys must have auto rotation of key enabled %key_id>>
    }
}

rule check_kms_key_usage_in_account(statements) {
    anyone %statements {
        Effect                == 'Deny'
        anyone Resource[*]    == '*'
        anyone Principal[*]   == '*'
        Action              in ['*', 'kms:*']
        Condition.StringNotEquals.'kms:CallerAccount'.Ref == 'AWS::AccountId'
    }
}
"###,
        ];
    for to_parse in success.iter() {
        let sp = span(to_parse);
        let result = parse_rules_file(&sp, 0, "");
        assert_eq!(result.is_ok(), true, "{:?}", result);
    }
}
