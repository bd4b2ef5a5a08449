use guard_lang::data::{DataEvent, ScalarStyle, StructureReader};
use guard_lang::evaluation::EvaluationError;
use guard_lang::read_json_value;
use guard_lang::value::Value;
use yaml_rust::parser::{Event, MarkedEventReceiver, Parser};
use yaml_rust::scanner::{Marker, TScalarStyle, TokenType};

struct Feeder {
    reader: StructureReader,
}

fn style_of(style: TScalarStyle) -> ScalarStyle {
    match style {
        TScalarStyle::Any => ScalarStyle::Any,
        TScalarStyle::Plain => ScalarStyle::Plain,
        TScalarStyle::SingleQuoted => ScalarStyle::SingleQuoted,
        TScalarStyle::DoubleQuoted => ScalarStyle::DoubleQuoted,
        TScalarStyle::Literal => ScalarStyle::Literal,
        TScalarStyle::Foled => ScalarStyle::Foled,
    }
}

impl MarkedEventReceiver for Feeder {
    fn on_event(&mut self, ev: Event, mark: Marker) {
        let ev = match ev {
            Event::Nothing => DataEvent::Nothing,
            Event::StreamStart => DataEvent::StreamStart,
            Event::StreamEnd => DataEvent::StreamEnd,
            Event::DocumentStart => DataEvent::DocumentStart,
            Event::DocumentEnd => DataEvent::DocumentEnd,
            Event::Alias(a) => DataEvent::Alias(a),
            Event::Scalar(v, style, anchor, token) => {
                let tag = match token {
                    Some(TokenType::Tag(handle, suffix)) => Some((handle, suffix)),
                    _ => None,
                };
                DataEvent::Scalar(v, style_of(style), anchor, tag)
            }
            Event::SequenceStart(anchor) => DataEvent::SequenceStart(anchor, None),
            Event::SequenceEnd => DataEvent::SequenceEnd,
            Event::MappingStart(anchor) => DataEvent::MappingStart(anchor, None),
            Event::MappingEnd => DataEvent::MappingEnd,
        };
        if !self.reader.can_take(&ev) {
            panic!("unsupported data event {:?}", ev);
        }
        self.reader.on_event(ev, mark.line(), mark.col());
    }
}

fn read_from(text: &str) -> Result<Value, EvaluationError<'static>> {
    let mut feeder = Feeder { reader: StructureReader::new() };
    let mut parser = Parser::new(text.chars());
    match parser.load(&mut feeder, false) {
        Ok(_) => Ok(feeder.reader.pop_document().unwrap()),
        Err(e) => {
            println!("Error {}", e);
            read_json_value(text)
        }
    }
}
use guard_lang::evaluation::{Comparison, EvalReporter, ValueType};
use guard_lang::exprs::{Expr, MapExpr, RuleExpr, UnaryExpr, UnaryOperator};
use guard_lang::parse_rules;
use guard_lang::parser::grammar::{parse_select, parse_unary_binary_or_block_expr, parse_value};
use guard_lang::parser::Span;
use guard_lang::query::{check_value_literal, extract_variables, RootScopeHierarchy, Scope};
use guard_lang::value::Status;
use guard_lang::visitor::Visitor;
use std::collections::HashSet;

#[derive(Debug)]
struct NoOpReporter {}

impl<'value> EvalReporter<'value> for NoOpReporter {
    fn report_missing_value(
        &mut self,
        _until: ValueType<'value>,
        _data_file_name: &'value str,
        _expr: &'value Expr,
    ) -> Result<(), std::io::Error> {
        Ok(())
    }

    fn report_mismatch_value_traversal(
        &mut self,
        _until: ValueType<'value>,
        _data_file_name: &'value str,
        _expr: &'value Expr,
    ) -> Result<(), std::io::Error> {
        Ok(())
    }

    fn report_evaluation(
        &mut self,
        _status: Status,
        _comparison: Comparison<'value>,
        _data_file: &'value str,
        _expr: &'value Expr,
    ) -> Result<(), std::io::Error> {
        Ok(())
    }
}

fn get_value() -> Result<Value, EvaluationError<'static>> {
    read_from(get_value_yaml())
}

fn get_value_yaml() -> &'static str {
    r###"
Resources:
  WebServerGroup:
    Type: AWS::AutoScaling::AutoScalingGroup
    CreationPolicy:
      ResourceSignal:
        Timeout: PT15M
        Count: '2'
    UpdatePolicy:
      AutoScalingRollingUpdate:
        MaxBatchSize: '1'
        MinInstancesInService: '1'
        PauseTime: PT15M
        WaitOnResourceSignals: 'true'
    Properties:
      AvailabilityZones: !GetAZs ''
      LaunchConfigurationName: !Ref 'LaunchConfig'
      MinSize: '2'
      MaxSize: '4'
      LoadBalancerNames: [!Ref 'ElasticLoadBalancer']
  LaunchConfig:
    Type: AWS::AutoScaling::LaunchConfiguration
    Metadata:
      AWS::CloudFormation::Init:
        configSets:
          full_install: [install_cfn, install_app, verify_instance_health]
        install_cfn:
          files:
            /etc/cfn/cfn-hup.conf:
              content: !Sub |
                [main]
                stack=${AWS::StackId}
                region=${AWS::Region}
              mode: '000400'
              owner: root
              group: root
            /etc/cfn/hooks.d/cfn-auto-reloader.conf:
              content: !Sub |
                [cfn-auto-reloader-hook]
                triggers=post.update
                path=Resources.LaunchConfig.Metadata.AWS::CloudFormation::Init
                action=/opt/aws/bin/cfn-init -v --stack ${AWS::StackName} --resource LaunchConfig --configsets full_install --region ${AWS::Region}
                runas=root
          services:
            sysvinit:
              cfn-hup:
                enabled: 'true'
                ensureRunning: 'true'
                files: [/etc/cfn/cfn-hup.conf, /etc/cfn/hooks.d/cfn-auto-reloader.conf]
        install_app:
          packages:
            yum:
              httpd: []
          files:
            /var/www/html/index.html:
              content: !Join
                - ''
                - - '<h1>Congratulations, you have successfully launched the AWS CloudFormation sample.</h1>'
                  - '<p>Version: 1.0</p>'
              mode: '000644'
              owner: root
              group: root
          services:
            sysvinit:
              httpd:
                enabled: 'true'
                ensureRunning: 'true'
        verify_instance_health:
          commands:
            ELBHealthCheck:
              command: !Sub
                'until [ "$state" == "\"InService\"" ]; do state=$(aws --region ${AWS::Region} elb describe-instance-health
                 --load-balancer-name ${ElasticLoadBalancer}
                 --instances $(curl -s http://169.254.169.254/latest/meta-data/instance-id)
                 --query InstanceStates[0].State); sleep 10; done'
    Properties:
      KeyName: !Ref 'KeyName'
      ImageId: !FindInMap [AWSRegionArch2AMI, !Ref 'AWS::Region', !FindInMap [AWSInstanceType2Arch,
          !Ref 'InstanceType', Arch]]
      InstanceType: !Ref 'InstanceType'
      SecurityGroups: [!Ref 'InstanceSecurityGroup']
      IamInstanceProfile: !Ref 'WebServerInstanceProfile'
      UserData:
        Fn::Base64: !Sub |
          #!/bin/bash -xe
          yum install -y aws-cfn-bootstrap
          /opt/aws/bin/cfn-init -v --stack ${AWS::StackId} --resource LaunchConfig --configsets full_install --region ${AWS::Region}
          /opt/aws/bin/cfn-signal -e $? --stack ${AWS::StackId} --resource WebServerGroup --region ${AWS::Region}
  ElasticLoadBalancer:
    Type: AWS::ElasticLoadBalancing::LoadBalancer
    Properties:
      AvailabilityZones: !GetAZs ''
      CrossZone: 'true'
      Listeners:
      - LoadBalancerPort: '80'
        InstancePort: '80'
        Protocol: HTTP
      HealthCheck:
        Target: HTTP:80/
        HealthyThreshold: '3'
        UnhealthyThreshold: '5'
        Interval: '30'
        Timeout: '5'
  InstanceSecurityGroup:
    Type: AWS::EC2::SecurityGroup
    Properties:
      GroupDescription: Enable SSH access and HTTP access on the configured port
      SecurityGroupIngress:
      - IpProtocol: tcp
        FromPort: '22'
        ToPort: '22'
        CidrIp: !Ref 'SSHLocation'
      - IpProtocol: tcp
        FromPort: '80'
        ToPort: '80'
        CidrIp: 0.0.0.0/0
  WebServerInstanceProfile:
    Type: AWS::IAM::InstanceProfile
    Properties:
      Path: /
      Roles: [!Ref 'DescribeHealthRole']
  DescribeHealthRole:
    Type: AWS::IAM::Role
    Properties:
      AssumeRolePolicyDocument:
        Statement:
        - Effect: Allow
          Principal:
            Service: [ec2.amazonaws.com]
          Action: ['sts:AssumeRole']
      Path: /
      Policies:
      - PolicyName: describe-instance-health-policy
        PolicyDocument:
          Statement:
          - Effect: Allow
            Action: ['elasticloadbalancing:DescribeInstanceHealth']
            Resource: '*'
Outputs:
  URL:
    Description: URL of the website
    Value: !Join ['', ['http://', !GetAtt [ElasticLoadBalancer, DNSName]]]

    "###
}


fn select(text: &str) -> Expr {
    let sp = Span::new_extra(text, "");
    let r = parse_select(&sp, 0);
    assert_eq!(r.is_ok(), true, "{:?}", r);
    r.unwrap().1
}

#[test]
fn test_simple_query() {
    let value = get_value();
    assert_eq!(value.is_ok(), true);
    let value = value.unwrap();
    let query = select("Resources.*.Type");
    let literal_sp = Span::new_extra(r#"[ /Web/, /Launch/ ]    "#, "");
    let expr = parse_value(&literal_sp, 0).unwrap().1;
    let second = select("Resources.%lookup");
    let mut hierarchy = RootScopeHierarchy::new(&value, NoOpReporter {});

    let r = hierarchy.query(&query, Vec::new());
    assert_eq!(r.is_ok(), true, "{:?}", r);
    let stack = r.unwrap();
    assert_eq!(stack.len(), 6);
    let expected = [
        "AWS::AutoScaling::AutoScalingGroup",
        "AWS::AutoScaling::LaunchConfiguration",
        "AWS::ElasticLoadBalancing::LoadBalancer",
        "AWS::EC2::SecurityGroup",
        "AWS::IAM::InstanceProfile",
        "AWS::IAM::Role",
    ];
    assert_eq!(
        stack.iter().all(|s| match s {
            ValueType::DataValue(Value::String(s, _)) => expected.contains(&s.as_str()),
            _ => unreachable!(),
        }),
        true
    );

    let mut scope = Scope::new();
    scope.insert_variable("lookup", vec![ValueType::LiteralValue(&expr)]);
    hierarchy.add_scope(scope);

    let r = hierarchy.query(&second, Vec::new());
    assert_eq!(r.is_ok(), true, "{:?}", r);
    let stack = r.unwrap();
    assert_eq!(stack.len(), 3);
}

#[derive(Debug)]
struct MissingReporter {}

impl<'v> EvalReporter<'v> for MissingReporter {
    fn report_missing_value(&mut self, until: ValueType<'v>, _data_file_name: &'v str, _expr: &'v Expr) -> Result<(), std::io::Error> {
        assert_eq!(matches!(until, ValueType::DataValue(Value::Mapping(..))), true);
        Ok(())
    }

    fn report_mismatch_value_traversal(&mut self, _until: ValueType<'v>, _data_file_name: &'v str, _expr: &'v Expr) -> Result<(), std::io::Error> {
        panic!("not expected")
    }

    fn report_evaluation(&mut self, _status: Status, _comparison: Comparison<'v>, _data_file: &'v str, _expr: &'v Expr) -> Result<(), std::io::Error> {
        panic!("not expected")
    }
}

#[test]
fn test_simple_query_missing_values() {
    let value = read_from(r###"Resources: {}"###).unwrap();
    let query = select("Resources.*.Type");
    let mut hierarchy = RootScopeHierarchy::new(&value, MissingReporter {});
    let r = hierarchy.query(&query, Vec::new());
    assert_eq!(r.is_ok(), true);
    let stack = r.unwrap();
    assert_eq!(stack.is_empty(), true);
}

#[test]
fn test_binary_comparison() {
    let value = r###"
    Resources:
        iam:
            Type: AWS::IAM::Role
            Properties:
                Action: Allow
                Principal: '*'
                Resource: '*'
        iam2:
            Type: AWS::IAM::Role
            Properties:
                Action: Allow
                Principal:
                  AWS: s3.amazonaws.com
                Resource: '*'
    "###;
    let value = read_from(value).unwrap();
    let binary_cmp = r#"Resources.*.Type == /Role$/"#;
    let sp = Span::new_extra(binary_cmp, "");
    let cmp = parse_unary_binary_or_block_expr(&sp, 0);
    assert_eq!(cmp.is_ok(), true, "{:?}", cmp);
    let cmp = cmp.unwrap().1;
    let mut hierarchy = RootScopeHierarchy::new(&value, NoOpReporter {});
    let result = hierarchy.binary_operation(&cmp, Vec::new());
    assert_eq!(result.is_ok(), true, "{:?}", result);
    assert_eq!(result.unwrap(), true);

    let binary_cmp = r#"Resources.*.Properties.Principal[*] != '*'"#;
    let sp = Span::new_extra(binary_cmp, "");
    let cmp = parse_unary_binary_or_block_expr(&sp, 0);
    assert_eq!(cmp.is_ok(), true, "{:?}", cmp);
    let cmp = cmp.unwrap().1;
    let mut hierarchy = RootScopeHierarchy::new(&value, NoOpReporter {});
    let result = hierarchy.binary_operation(&cmp, Vec::new());
    assert_eq!(result.is_ok(), true, "{:?}", result);
    assert_eq!(result.unwrap(), false);
}

#[test]
fn test_binary_operators() {
    let value = r###"
    PARAMETERS:
       allowed_ports: [600, 800]
    Resources:
      sgs:
        Type: AWS::EC2::SecurityGroup
        Properties:
          ingress:
            - From: 10
              To: 100
              Cidr: 0.0.0.0/0
    "###;
    let value = read_from(value).unwrap();
    let expr = select("PARAMETERS.AllowedPorts");
    let mut hierarchy = RootScopeHierarchy::new(&value, NoOpReporter {});
    let values = hierarchy.query(&expr, vec![ValueType::DataValue(&value)]);
    assert_eq!(values.is_ok(), true, "{:?}", values);
    let values = values.unwrap();
    assert_eq!(values.len(), 1);
    assert_eq!(matches!(values.get(0), Some(ValueType::DataValue(Value::List(..)))), true);
}

struct CheckComputed {}

impl Visitor<'_> for CheckComputed {
    type Value = ();
    type Error = ();

    fn visit_unary_operation(self, _expr: &'_ Expr, value: &'_ UnaryExpr) -> Result<Self::Value, Self::Error> {
        assert_eq!(value.operator, UnaryOperator::Keys);
        Ok(())
    }

    fn visit_map(self, _expr: &'_ Expr, value: &'_ MapExpr) -> Result<Self::Value, Self::Error> {
        if let Some((_, expr)) = value.entries.iter().find(|(k, _)| k == "all_tags") {
            expr.accept(CheckComputed {})?;
        }
        Ok(())
    }

    fn visit_any(self, expr: &'_ Expr) -> Result<Self::Value, Self::Error> {
        panic!("unexpected {:?}", expr)
    }
}

#[test]
fn test_rule_file_extraction() {
    let rules = r###"
#
# Constants
#
let certificate_association_resource_types      = [
    'AWS::CertificateManager::Certificate',
    'AWS::ACMPCA::Certificate',
    'AWS::ACMPCA::CertificateAuthorityActivation'
]

#
# NIST controls for this check
#
let nist_controls       = [
    "NIST-800-53-IA-5",
    "NIST-800-53-SC-17"
]

#
# Assignments
#
let acm_private_cas     = Resources[ Type == 'AWS::ACMPCA::CertificateAuthority' ]
let acm_private_cas_ids = keys %acm_private_cas
let certificates        = Resources[ Type in %certificate_association_resource_types ]
let acm_pca_certs       = %certificates[ Properties.CertificateAuthorityArn exists ]
let acm_non_pca_certs   = %certificates[ Properties.CertificateAuthorityArn not exists ]
let computed            = {
    all_tags: keys Resources[ Properties.Tags NOT EMPTY ],
    others: "others"
}
let non_computed_literal    = {
  all: "values", are: "pure",
}

rule check_local(references, expected_logical_ids, attribute) when Check.AssertLocal == true {
    %references {
        Ref in %expected_logical_ids ||
        'Fn::GetAtt' {
            this[0] in %expected_logical_ids && this[1] == %attribute
        }
    }
}

rule check_acm_non_pca_certs when %acm_non_pca_certs not empty {
    %acm_non_pca_certs.Type == 'AWS::CertificateManager::Certificate'
}

rule check_acm_pca_certs when %acm_pca_certs not empty {
    %acm_private_cas not empty
        << No private ACM PCAs configured in stack to associate >>
    #
    # If there are not ACM PCA in the template, then acm_private_ca_names will not
    # exist to check against
    #
    check_local(
        %acm_pca_certs.Properties.CertificateAuthorityArn,
        %acm_private_ca_ids
    )
}

rule check_acm_certs_transparency {
    %certificates[ Type == 'AWS::CertificateManager::Certificate' ] {
        Properties {
            CertificateTransparencyLoggingPreference not exists or
            CertificateTransparencyLoggingPreference == 'ENABLED'
        }
    }
}

rule deny_kms_key_checks {
    Resources[ key_id | Type == 'AWS::KMS::Key' ].Properties {
        check_kms_key_usage_in_account(KeyPolicy.Statement[*] || KeyPolicy.Statement)
            <<KMS service actions are not DENIED access from outside account explicitly on %key_id>>
        EnableKeyRotation == true
            <<ALL KMS keys must have auto rotation of key enabled %key_id>>
    }
}

rule check_kms_key_usage_in_account(statements) {
    anyone %statements {
        Effect                == 'Deny'
        anyone Resource[*]    == '*'
        anyone Principal[*]   == '*'
        Action              in ['*', 'kms:*']
        Condition.StringNotEquals.'kms:CallerAccount'.Ref == 'AWS::AccountId'
    }
}"###;
    let rules_file = parse_rules(rules, "");
    assert_eq!(rules_file.is_ok(), true, "{:?}", rules_file);
    let rules_file = rules_file.unwrap();
    let variable_names = [
        "certificate_association_resource_types",
        "nist_controls",
        "acm_private_cas",
        "acm_private_cas_ids",
        "certificates",
        "acm_pca_certs",
        "computed",
        "non_computed_literal",
        "acm_non_pca_certs",
    ];
    let scope = extract_variables(&rules_file, Scope::new());
    assert_eq!(scope.is_ok(), true, "{:?}", scope);
    let scope = scope.unwrap();
    assert_eq!(scope.variable_definitions.is_empty(), false, "Expected variables {:?} {:?}", variable_names, scope);
    let keys: Vec<&str> = scope.variable_definitions.iter().map(|(k, _)| k.as_str()).collect();
    assert_eq!(keys.iter().all(|s| variable_names.contains(s)), true, "{:?} {:?}", variable_names, keys);

    let definition = |name: &str| {
        scope.variable_definitions.iter().find(|(k, _)| k == name).map(|(_, l)| *l).unwrap()
    };

    let let_expr = definition("certificate_association_resource_types");
    assert_eq!(check_value_literal(&let_expr.value), true);

    let let_expr = definition("computed");
    assert_eq!(check_value_literal(&let_expr.value), false);
    let expr_checking = let_expr.value.accept(CheckComputed {});
    assert_eq!(expr_checking.is_ok(), true);

    let let_expr = definition("non_computed_literal");
    assert_eq!(check_value_literal(&let_expr.value), true);

    if let Expr::File(file) = &rules_file {
        assert_eq!(file.rules.len(), 6, "Expected 6, {}", file.rules.len());
        let (named_rules, normal): (Vec<&RuleExpr>, Vec<&RuleExpr>) =
            file.rules.iter().partition(|r| r.parameters.is_some());
        assert_eq!(named_rules.len(), 2);
        assert_eq!(normal.len(), 4);
        let expected_named_rules = ["check_kms_key_usage_in_account", "check_local"]
            .iter()
            .map(|s| *s)
            .collect::<HashSet<&str>>();
        assert_eq!(named_rules.iter().map(|r| r.name.as_str()).collect::<HashSet<&str>>(), expected_named_rules);
        let expected = [
            "check_acm_non_pca_certs",
            "deny_kms_key_checks",
            "check_acm_certs_transparency",
            "check_acm_pca_certs",
            "check_acm_non_pca_certs",
        ]
        .iter()
        .map(|s| *s)
        .collect::<HashSet<&str>>();
        assert_eq!(normal.iter().map(|r| r.name.as_str()).collect::<HashSet<&str>>(), expected);
    }
}
